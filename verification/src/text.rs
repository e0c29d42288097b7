//! Character-level facts about UTF-8 text: encoded widths, byte offsets and
//! the spans they delimit, and whitespace-delimited words, together with the
//! executable scanners that compute them.

use vstd::prelude::*;
use vstd::string::{StrSliceExecFns, StringExecFns};
use vstd::utf8::{char_is_scalar, encode_scalar, encode_utf8};

verus! {

/// The number of bytes in the UTF-8 encoding of `c`.
pub open spec fn utf8_len(c: char) -> int {
    if (c as u32) < 0x80 {
        1
    } else if (c as u32) < 0x800 {
        2
    } else if (c as u32) < 0x10000 {
        3
    } else {
        4
    }
}

/// The number of bytes in the UTF-8 encoding of `s`.
pub open spec fn byte_len(s: Seq<char>) -> int
    decreases s.len(),
{
    if s.len() == 0 {
        0
    } else {
        utf8_len(s[0]) + byte_len(s.drop_first())
    }
}

/// `utf8_len` agrees with the length of the encoding given by `vstd::utf8`.
pub proof fn lemma_utf8_len_is_encoded_len(c: char)
    ensures
        utf8_len(c) == encode_scalar(c as u32).len(),
{
    char_is_scalar(c);
}

/// `byte_len` agrees with the length of the encoding given by `vstd::utf8`.
pub proof fn lemma_byte_len_is_encoded_len(s: Seq<char>)
    ensures
        byte_len(s) == encode_utf8(s).len(),
    decreases s.len(),
{
    if s.len() > 0 {
        lemma_utf8_len_is_encoded_len(s[0]);
        lemma_byte_len_is_encoded_len(s.drop_first());
    }
}

/// A character occupies between one and four bytes, so a text occupies at
/// least one byte per character and at most four.
pub proof fn lemma_byte_len_bounds(s: Seq<char>)
    ensures
        s.len() <= byte_len(s) <= 4 * s.len(),
    decreases s.len(),
{
    if s.len() > 0 {
        lemma_byte_len_bounds(s.drop_first());
    }
}

/// `byte_len` adds up over concatenation.
pub proof fn lemma_byte_len_concat(a: Seq<char>, b: Seq<char>)
    ensures
        byte_len(a + b) == byte_len(a) + byte_len(b),
    decreases a.len(),
{
    if a.len() == 0 {
        assert(a + b =~= b);
    } else {
        assert((a + b).drop_first() =~= a.drop_first() + b);
        lemma_byte_len_concat(a.drop_first(), b);
    }
}

/// The number of leading characters of `s` whose encodings together occupy
/// exactly `bytes` bytes; `None` when `bytes` lands beyond the end of `s` or
/// inside the encoding of a character.
pub open spec fn char_index_at(s: Seq<char>, bytes: int) -> Option<int>
    decreases s.len(),
{
    if bytes == 0 {
        Some(0)
    } else if bytes < 0 || s.len() == 0 {
        None
    } else {
        match char_index_at(s.drop_first(), bytes - utf8_len(s[0])) {
            Some(k) => Some(1 + k),
            None => None,
        }
    }
}

/// What `char_index_at` finds is a character index of `s` whose prefix
/// occupies exactly the asked-for number of bytes.
pub proof fn lemma_char_index_at_some(s: Seq<char>, bytes: int, k: int)
    requires
        char_index_at(s, bytes) == Some(k),
    ensures
        0 <= k <= s.len(),
        byte_len(s.take(k)) == bytes,
    decreases s.len(),
{
    if bytes == 0 {
        assert(s.take(0) =~= Seq::<char>::empty());
    } else {
        lemma_char_index_at_some(s.drop_first(), bytes - utf8_len(s[0]), k - 1);
        assert(s.take(k).drop_first() =~= s.drop_first().take(k - 1));
        assert(s.take(k)[0] == s[0]);
    }
}

/// The characters of `s` from the byte offset `bytes` to the end; `None` when
/// that offset is not a character boundary of `s`.
pub open spec fn remaining_of(s: Seq<char>, bytes: int) -> Option<Seq<char>> {
    match char_index_at(s, bytes) {
        Some(k) => Some(s.skip(k)),
        None => None,
    }
}

/// The characters of `s` in the byte range `[start, start + len)`; `None`
/// when either end of the range is not a character boundary of `s`.
pub open spec fn slice_chars(s: Seq<char>, start: int, len: int) -> Option<Seq<char>> {
    match char_index_at(s, start) {
        Some(k) => match char_index_at(s.skip(k), len) {
            Some(m) => Some(s.skip(k).take(m)),
            None => None,
        },
        None => None,
    }
}

/// When `s` starts with `p`, the byte offset `byte_len(p)` is a character
/// boundary of `s`, and the characters before it are exactly those of `p`.
pub proof fn lemma_char_index_at_prefix(s: Seq<char>, p: Seq<char>)
    requires
        begins_with(s, p),
    ensures
        char_index_at(s, byte_len(p)) == Some(p.len() as int),
    decreases p.len(),
{
    if p.len() == 0 {
    } else {
        lemma_byte_len_bounds(p);
        assert(s.take(p.len() as int)[0] == s[0]);
        assert(p.drop_first().len() <= s.drop_first().len());
        assert(s.drop_first().take(p.drop_first().len() as int) =~= p.drop_first()) by {
            assert(forall|j: int|
                0 <= j < p.len() - 1 ==> s.drop_first().take(p.drop_first().len() as int)[j] == s
                    .take(p.len() as int)[j + 1]);
        }
        lemma_char_index_at_prefix(s.drop_first(), p.drop_first());
        assert(utf8_len(s[0]) == utf8_len(p[0]));
    }
}

/// A byte range of `len` bytes holds at most `len` characters, each being at
/// least one byte wide.
pub proof fn lemma_slice_chars_count(s: Seq<char>, start: int, len: int)
    ensures
        slice_chars(s, start, len) matches Some(consumed) ==> consumed.len() <= len,
{
    if char_index_at(s, start) is Some {
        let k = char_index_at(s, start)->Some_0;
        lemma_char_index_at_some(s, start, k);
        if char_index_at(s.skip(k), len) is Some {
            let m = char_index_at(s.skip(k), len)->Some_0;
            lemma_char_index_at_some(s.skip(k), len, m);
            lemma_byte_len_bounds(s.skip(k).take(m));
        }
    }
}

/// The Unicode white-space characters, the set `char::is_whitespace`
/// recognises.
pub open spec fn is_space(c: char) -> bool {
    let u = c as u32;
    ||| (0x9 <= u && u <= 0xD)
    ||| u == 0x20
    ||| u == 0x85
    ||| u == 0xA0
    ||| u == 0x1680
    ||| (0x2000 <= u && u <= 0x200A)
    ||| u == 0x2028
    ||| u == 0x2029
    ||| u == 0x202F
    ||| u == 0x205F
    ||| u == 0x3000
}

/// The number of leading white-space characters of `s`.
pub open spec fn ws_prefix_len(s: Seq<char>) -> int
    decreases s.len(),
{
    if s.len() == 0 || !is_space(s[0]) {
        0
    } else {
        1 + ws_prefix_len(s.drop_first())
    }
}

/// The number of leading characters of `s` up to its first white space.
pub open spec fn word_len(s: Seq<char>) -> int
    decreases s.len(),
{
    if s.len() == 0 || is_space(s[0]) {
        0
    } else {
        1 + word_len(s.drop_first())
    }
}

/// The first whitespace-delimited word of `s`, or the whole of `s` when `s`
/// holds nothing but white space.
pub open spec fn first_ws_token(s: Seq<char>) -> Seq<char> {
    let lead = ws_prefix_len(s);
    if lead == s.len() {
        s
    } else {
        s.skip(lead).take(word_len(s.skip(lead)))
    }
}

/// `p` is a prefix of `s`, character by character.
pub open spec fn begins_with(s: Seq<char>, p: Seq<char>) -> bool {
    p.len() <= s.len() && s.take(p.len() as int) == p
}

/// Computes the UTF-8 width of `c` without encoding it.
pub(crate) fn char_utf8_len(c: char) -> (l: u8)
    ensures
        l as int == utf8_len(c),
{
    let u = c as u32;
    if u < 0x80 {
        1
    } else if u < 0x800 {
        2
    } else if u < 0x10000 {
        3
    } else {
        4
    }
}

/// The byte length of `s`, tied to the character-level measure `byte_len`.
pub(crate) fn byte_length(s: &str) -> (r: usize)
    ensures
        r == byte_len(s@),
{
    proof {
        lemma_byte_len_is_encoded_len(s@);
    }
    s.as_bytes().len()
}

/// Scans `s` from the character index `from` for a run of characters that
/// together occupy exactly `bytes` bytes, returning the character index just
/// past that run.
pub(crate) fn scan_span(s: &str, n: usize, from: usize, bytes: usize) -> (r: Option<usize>)
    requires
        n == s@.len(),
        from <= n,
    ensures
        match r {
            Some(m) => from <= m <= n && char_index_at(s@.skip(from as int), bytes as int)
                == Some(m - from),
            None => char_index_at(s@.skip(from as int), bytes as int) is None,
        },
{
    let mut i: usize = from;
    let mut rem: usize = bytes;
    loop
        invariant
            from <= i <= n,
            n == s@.len(),
            rem <= bytes,
            match char_index_at(s@.skip(i as int), rem as int) {
                Some(j) => char_index_at(s@.skip(from as int), bytes as int) == Some(
                    i - from + j,
                ),
                None => char_index_at(s@.skip(from as int), bytes as int) is None,
            },
        decreases n - i,
    {
        if rem == 0 {
            return Some(i);
        }
        if i == n {
            assert(s@.skip(i as int).len() == 0);
            return None;
        }
        let c = s.get_char(i);
        let l = char_utf8_len(c);
        proof {
            assert(s@.skip(i as int)[0] == s@[i as int]);
            assert(s@.skip(i as int).drop_first() =~= s@.skip(i as int + 1));
        }
        if (l as usize) > rem {
            proof {
                assert(char_index_at(s@.skip(i as int).drop_first(), rem - utf8_len(s@[i as int]))
                    is None);
                assert(char_index_at(s@.skip(i as int), rem as int) is None);
            }
            return None;
        }
        rem = rem - (l as usize);
        i = i + 1;
    }
}

/// Decides whether `p` is a character-by-character prefix of `s`.
pub(crate) fn has_prefix(s: &str, n: usize, p: &str, pn: usize) -> (r: bool)
    requires
        n == s@.len(),
        pn == p@.len(),
    ensures
        r == begins_with(s@, p@),
{
    if pn > n {
        return false;
    }
    let mut i: usize = 0;
    while i < pn
        invariant
            i <= pn <= n,
            n == s@.len(),
            pn == p@.len(),
            forall|j: int| 0 <= j < i ==> s@[j] == p@[j],
        decreases pn - i,
    {
        if s.get_char(i) != p.get_char(i) {
            assert(s@.take(pn as int)[i as int] != p@[i as int]);
            return false;
        }
        i = i + 1;
    }
    proof {
        assert(s@.take(pn as int) =~= p@);
    }
    true
}

/// Extracts the first whitespace-delimited word of `s`, or a copy of the
/// whole of `s` when it holds nothing but white space.
pub(crate) fn first_token(s: &str, n: usize) -> (r: String)
    requires
        n == s@.len(),
    ensures
        r@ == first_ws_token(s@),
{
    let mut i: usize = 0;
    proof {
        assert(s@.skip(0) =~= s@);
    }
    loop
        invariant
            i <= n,
            n == s@.len(),
            ws_prefix_len(s@) == i + ws_prefix_len(s@.skip(i as int)),
        ensures
            i < n,
            ws_prefix_len(s@) == i,
        decreases n - i,
    {
        if i == n {
            assert(s@.skip(n as int).len() == 0);
            return String::from_str(s);
        }
        let c = s.get_char(i);
        proof {
            assert(s@.skip(i as int)[0] == s@[i as int]);
            assert(s@.skip(i as int).drop_first() =~= s@.skip(i as int + 1));
        }
        if !char_is_space(c) {
            break;
        }
        i = i + 1;
    }
    let start = i;
    let mut j: usize = start;
    loop
        invariant
            start <= j <= n,
            n == s@.len(),
            start < n,
            start == ws_prefix_len(s@),
            word_len(s@.skip(start as int)) == (j - start) + word_len(s@.skip(j as int)),
        ensures
            start <= j <= n,
            word_len(s@.skip(start as int)) == j - start,
        decreases n - j,
    {
        if j == n {
            assert(s@.skip(n as int).len() == 0);
            break;
        }
        let c = s.get_char(j);
        proof {
            assert(s@.skip(j as int)[0] == s@[j as int]);
            assert(s@.skip(j as int).drop_first() =~= s@.skip(j as int + 1));
        }
        if char_is_space(c) {
            break;
        }
        j = j + 1;
    }
    let word = s.substring_char(start, j);
    proof {
        assert(word@ =~= s@.skip(start as int).take(j - start));
    }
    String::from_str(word)
}

/// Decides whether `c` is one of the Unicode white-space characters.
pub(crate) fn char_is_space(c: char) -> (r: bool)
    ensures
        r == is_space(c),
{
    let u = c as u32;
    (0x9 <= u && u <= 0xD) || u == 0x20 || u == 0x85 || u == 0xA0 || u == 0x1680 || (0x2000 <= u
        && u <= 0x200A) || u == 0x2028 || u == 0x2029 || u == 0x202F || u == 0x205F || u == 0x3000
}

} // verus!
