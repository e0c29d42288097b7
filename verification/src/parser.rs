//! The combinator substrate: the capability a parse function satisfies, the
//! reusable `Parser` wrapper that runs one on a fresh context, and the
//! primitive matchers — any token, one fixed character, a fixed literal —
//! built on it.

use crate::context::{ctx_view_parts, loc_after_advance_by, Context, CtxModel};
use crate::error::{Error, Expected};
use crate::location::{start_loc, LocModel};
use crate::node::Node;
use crate::text::{
    begins_with, byte_len, byte_length, char_utf8_len, first_token, first_ws_token, has_prefix,
    remaining_of, slice_chars, utf8_len,
};
use vstd::prelude::*;
use vstd::string::{StrSliceExecFns, StringExecFns};

verus! {

/// Any type may serve as the semantic payload carried by parse-tree nodes.
pub trait ParserType {

}

impl<T> ParserType for T {

}

/// The outcome of one parse: a node on success, an error on failure — never
/// both.
pub type ParseResult<T> = Result<Node<T>, Error>;

/// The capability of a parse function: given a context, consume characters
/// and yield a node or an error. Each implementor spells out what it needs
/// of the context, where it leaves the cursor, and how its result relates to
/// the context it saw — so everything a call returns is a function of that
/// context alone.
pub trait ParseFN<T: ParserType> {
    /// What the call needs of the context: nothing beyond the bounds the
    /// machine word forces on line, column and offset.
    spec fn call_req(&self, m: CtxModel) -> bool;

    /// The cursor position the call leaves behind.
    spec fn post_loc(&self, m: CtxModel) -> LocModel;

    /// How the result relates to the context the call saw.
    spec fn call_ens(&self, m: CtxModel, r: ParseResult<T>) -> bool;

    /// Runs the parse function once, consuming from `context`.
    fn call(&self, context: &mut Context<'_>) -> (r: ParseResult<T>)
        requires
            self.call_req(old(context)@),
        ensures
            final(context)@.input == old(context)@.input,
            final(context)@.loc == self.post_loc(old(context)@),
            self.call_ens(old(context)@, r),
    ;
}

/// The remaining input as the matchers see it: absent entirely when the
/// original input is empty, or when the cursor's byte offset is not a
/// character boundary of it.
pub open spec fn remaining_view(m: CtxModel) -> Option<Seq<char>> {
    if m.input.len() == 0 {
        None
    } else {
        remaining_of(m.input, m.loc.end)
    }
}

/// The model of a fresh context over `input`.
pub open spec fn init_ctx(input: Seq<char>) -> CtxModel {
    CtxModel { input, loc: start_loc() }
}

/// An immutable, reusable wrapper around a parse function. A `Parser` may be
/// invoked any number of times against any number of inputs; each invocation
/// builds its own private context, so none can leak cursor state into
/// another.
pub struct Parser<F, T> where F: ParseFN<T>, T: ParserType {
    parse_fn: F,
    _parser_type: core::marker::PhantomData<T>,
}

impl<F, T> Parser<F, T> where F: ParseFN<T>, T: ParserType {
    /// The wrapped parse function, for use in specifications.
    pub closed spec fn matcher(&self) -> F {
        self.parse_fn
    }

    /// Wraps a parse function; total, and never fails.
    pub fn new(parse_fn: F) -> (r: Self)
        ensures
            r.matcher() == parse_fn,
    {
        Self { parse_fn, _parser_type: core::marker::PhantomData }
    }

    /// Allocates a fresh context over `input` with the default location,
    /// invokes the wrapped function exactly once, and returns its result
    /// unchanged. The outcome is constrained by `input` alone, whatever was
    /// parsed before.
    pub fn parse(&self, input: &str) -> (r: ParseResult<T>)
        requires
            self.matcher().call_req(init_ctx(input@)),
        ensures
            self.matcher().call_ens(init_ctx(input@), r),
    {
        let mut context: Context = Context::new(input);
        proof {
            ctx_view_parts(&context);
            assert(context@ == init_ctx(input@));
        }
        self.parse_fn.call(&mut context)
    }
}

/// Matches any single character.
pub struct AnyTokenMatcher {}

/// Matches one fixed character.
pub struct TokenMatcher {
    pub expected: char,
}

/// Matches a fixed string as a prefix of the remaining input.
pub struct LiteralMatcher {
    pub pattern: String,
}

impl ParseFN<char> for AnyTokenMatcher {
    open spec fn call_req(&self, m: CtxModel) -> bool {
        m.input.len() > 0 ==> (match slice_chars(m.input, m.loc.end, utf8_len(m.input[0])) {
            Some(consumed) => m.loc.line + consumed.len() <= usize::MAX && m.loc.column
                + consumed.len() <= usize::MAX,
            None => true,
        })
    }

    open spec fn post_loc(&self, m: CtxModel) -> LocModel {
        if m.input.len() == 0 {
            m.loc
        } else {
            loc_after_advance_by(m, utf8_len(m.input[0]))
        }
    }

    open spec fn call_ens(&self, m: CtxModel, r: ParseResult<char>) -> bool {
        if m.input.len() == 0 {
            r == Err::<Node<char>, Error>(
                Error::UnexpectedEndOfInput { expected: Expected::AnyToken },
            )
        } else {
            r matches Ok(node) && node.name@ == "anyToken"@ && node.value == m.input[0]
                && node.location@ == loc_after_advance_by(m, utf8_len(m.input[0]))
                && node.children@.len() == 0
        }
    }

    fn call(&self, context: &mut Context<'_>) -> (r: ParseResult<char>) {
        match context.get_next_character() {
            Some(token) => {
                let width = char_utf8_len(token);
                context.advance_by(width as usize);
                proof {
                    ctx_view_parts(context);
                }
                Ok(Node::new("anyToken", token, context.location.clone(), Vec::new()))
            },
            None => Err(Error::UnexpectedEndOfInput { expected: Expected::AnyToken }),
        }
    }
}

impl ParseFN<char> for TokenMatcher {
    open spec fn call_req(&self, m: CtxModel) -> bool {
        m.input.len() > 0 && m.input[0] == self.expected ==> (match slice_chars(
            m.input,
            m.loc.end,
            utf8_len(m.input[0]),
        ) {
            Some(consumed) => m.loc.line + consumed.len() <= usize::MAX && m.loc.column
                + consumed.len() <= usize::MAX,
            None => true,
        })
    }

    open spec fn post_loc(&self, m: CtxModel) -> LocModel {
        if m.input.len() > 0 && m.input[0] == self.expected {
            loc_after_advance_by(m, utf8_len(m.input[0]))
        } else {
            m.loc
        }
    }

    open spec fn call_ens(&self, m: CtxModel, r: ParseResult<char>) -> bool {
        if m.input.len() == 0 {
            r == Err::<Node<char>, Error>(
                Error::UnexpectedEndOfInput { expected: Expected::Character(self.expected) },
            )
        } else if m.input[0] == self.expected {
            r matches Ok(node) && node.name@ == "token"@ && node.value == self.expected
                && node.location@ == loc_after_advance_by(m, utf8_len(m.input[0]))
                && node.children@.len() == 0
        } else {
            r == Err::<Node<char>, Error>(
                Error::MisMatchedCharacter {
                    expected: Expected::Character(self.expected),
                    found: m.input[0],
                },
            )
        }
    }

    fn call(&self, context: &mut Context<'_>) -> (r: ParseResult<char>) {
        match context.get_next_character() {
            Some(token) => {
                if token == self.expected {
                    let width = char_utf8_len(token);
                    context.advance_by(width as usize);
                    proof {
                        ctx_view_parts(context);
                    }
                    Ok(Node::new("token", token, context.location.clone(), Vec::new()))
                } else {
                    Err(
                        Error::MisMatchedCharacter {
                            expected: Expected::Character(self.expected),
                            found: token,
                        },
                    )
                }
            },
            None => Err(
                Error::UnexpectedEndOfInput { expected: Expected::Character(self.expected) },
            ),
        }
    }
}

impl ParseFN<String> for LiteralMatcher {
    open spec fn call_req(&self, m: CtxModel) -> bool {
        (match remaining_view(m) {
            Some(rem) => begins_with(rem, self.pattern@) ==> (match slice_chars(
                m.input,
                m.loc.end,
                byte_len(self.pattern@),
            ) {
                Some(consumed) => m.loc.line + consumed.len() <= usize::MAX && m.loc.column
                    + consumed.len() <= usize::MAX,
                None => true,
            }),
            None => true,
        })
    }

    open spec fn post_loc(&self, m: CtxModel) -> LocModel {
        match remaining_view(m) {
            Some(rem) => if begins_with(rem, self.pattern@) {
                loc_after_advance_by(m, byte_len(self.pattern@))
            } else {
                m.loc
            },
            None => m.loc,
        }
    }

    open spec fn call_ens(&self, m: CtxModel, r: ParseResult<String>) -> bool {
        match remaining_view(m) {
            None => r == Err::<Node<String>, Error>(
                Error::UnexpectedEndOfInput { expected: Expected::Literal(self.pattern) },
            ),
            Some(rem) => if begins_with(rem, self.pattern@) {
                r matches Ok(node) && node.name@ == "literal"@ && node.value == self.pattern
                    && node.location@ == loc_after_advance_by(m, byte_len(self.pattern@))
                    && node.children@.len() == 0
            } else {
                r matches Err(e) && e matches Error::InvalidLiteral { expected, found }
                    && expected == Expected::Literal(self.pattern) && found@ == first_ws_token(rem)
            },
        }
    }

    fn call(&self, context: &mut Context<'_>) -> (r: ParseResult<String>) {
        match context.get_remaining_input() {
            Some(remaining_input) => {
                let remaining_chars = remaining_input.unicode_len();
                let pattern_chars = self.pattern.as_str().unicode_len();
                if has_prefix(remaining_input, remaining_chars, self.pattern.as_str(),
                    pattern_chars) {
                    let pattern_bytes = byte_length(self.pattern.as_str());
                    context.advance_by(pattern_bytes);
                    proof {
                        ctx_view_parts(context);
                    }
                    Ok(
                        Node::new(
                            "literal",
                            self.pattern.clone(),
                            context.location.clone(),
                            Vec::new(),
                        ),
                    )
                } else {
                    let found = first_token(remaining_input, remaining_chars);
                    Err(
                        Error::InvalidLiteral {
                            expected: Expected::Literal(self.pattern.clone()),
                            found,
                        },
                    )
                }
            },
            None => Err(
                Error::UnexpectedEndOfInput { expected: Expected::Literal(self.pattern.clone()) },
            ),
        }
    }
}

/// On a fresh context, `any_token` asks nothing of its caller: the character
/// it may consume spans at most four bytes, so the machine-width bound of
/// `call_req` holds for every input.
pub proof fn lemma_any_token_req(f: AnyTokenMatcher, input: Seq<char>)
    ensures
        f.call_req(init_ctx(input)),
{
    if input.len() > 0 {
        crate::text::lemma_slice_chars_count(input, 0, utf8_len(input[0]));
    }
}

/// On a fresh context, `token` asks nothing of its caller: the character it
/// may consume spans at most four bytes, so the machine-width bound of
/// `call_req` holds for every input.
pub proof fn lemma_token_req(f: TokenMatcher, input: Seq<char>)
    ensures
        f.call_req(init_ctx(input)),
{
    if input.len() > 0 {
        crate::text::lemma_slice_chars_count(input, 0, utf8_len(input[0]));
    }
}

/// On a fresh context, `literal` asks of its caller only that its pattern's
/// byte length leaves room in a machine word for the columns it may count:
/// with that, the machine-width bound of `call_req` holds for every input.
pub proof fn lemma_literal_req(f: LiteralMatcher, input: Seq<char>)
    requires
        byte_len(f.pattern@) + 1 <= usize::MAX,
    ensures
        f.call_req(init_ctx(input)),
{
    if remaining_view(init_ctx(input)) is Some {
        crate::text::lemma_slice_chars_count(input, 0, byte_len(f.pattern@));
    }
}

/// A parser that consumes exactly one character, whatever it is, and labels
/// its node `anyToken`; it fails only on exhausted input.
pub fn any_token() -> (p: Parser<AnyTokenMatcher, char>)
    ensures
        p.matcher() == (AnyTokenMatcher {  }),
{
    Parser::new(AnyTokenMatcher {  })
}

/// A parser that consumes one character exactly when it equals
/// `expected_token`, labelling its node `token`.
pub fn token(expected_token: char) -> (p: Parser<TokenMatcher, char>)
    ensures
        p.matcher() == (TokenMatcher { expected: expected_token }),
{
    Parser::new(TokenMatcher { expected: expected_token })
}

/// A parser that consumes `pattern` exactly when the remaining input starts
/// with it, labelling its node `literal`.
pub fn literal(pattern: &str) -> (p: Parser<LiteralMatcher, String>)
    ensures
        p.matcher().pattern@ == pattern@,
{
    Parser::new(LiteralMatcher { pattern: String::from_str(pattern) })
}

} // verus!
