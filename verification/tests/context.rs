use magical::{Context, ParseFN, TokenMatcher};

#[test]
fn peek_reads_the_head_of_the_original_input() {
    let mut context = Context::new("abc");
    assert_eq!(context.get_next_character(), Some('a'));

    // the peek stays at the head of the whole input even after an advance
    context.advance("a");
    assert_eq!(context.get_next_character(), Some('a'));
}

#[test]
fn peek_on_empty_input_finds_nothing() {
    let context = Context::new("");
    assert_eq!(context.get_next_character(), None);
}

#[test]
fn remaining_input_follows_the_cursor() {
    let mut context = Context::new("abc");
    assert_eq!(context.get_remaining_input(), Some("abc"));

    context.advance("ab");
    assert_eq!(context.get_remaining_input(), Some("c"));
}

#[test]
fn remaining_input_of_empty_input_is_absent() {
    let context = Context::new("");
    assert_eq!(context.get_remaining_input(), None);
}

#[test]
fn remaining_input_of_consumed_input_is_empty_not_absent() {
    let mut context = Context::new("ab");
    context.advance("ab");
    assert_eq!(context.get_remaining_input(), Some(""));
}

#[test]
fn advance_by_zero_does_nothing() {
    let mut context = Context::new("abc");
    context.advance_by(0);
    assert_eq!(context.get_remaining_input(), Some("abc"));
}

#[test]
fn advance_by_refuses_to_split_a_character() {
    // U+00E9 occupies two bytes: a one-byte step lands inside it
    let mut context = Context::new("\u{e9}x");
    context.advance_by(1);
    assert_eq!(context.get_remaining_input(), Some("\u{e9}x"));
}

#[test]
fn advance_by_past_the_end_does_nothing() {
    let mut context = Context::new("ab");
    context.advance_by(5);
    assert_eq!(context.get_remaining_input(), Some("ab"));
}

#[test]
fn mismatched_token_leaves_the_cursor_unadvanced() {
    let mut context = Context::new("abc");
    let matcher = TokenMatcher { expected: 'b' };

    let result = matcher.call(&mut context);

    assert!(result.is_err());
    assert_eq!(context.get_remaining_input(), Some("abc"));
}

#[test]
fn advance_by_consumes_whole_characters() {
    let mut context = Context::new("\u{e9}xy");
    context.advance_by(3);
    assert_eq!(context.get_remaining_input(), Some("y"));
}
