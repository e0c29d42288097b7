use magical::{any_token, literal, token, Error, Expected, Location, Node};

#[test]
fn newline_token_starts_the_next_line() {
    let parse_result: Result<Node<char>, Error> = token('\n').parse("\nabc");

    assert_eq!(
        parse_result,
        Ok(Node {
            name: "token",
            value: '\n',
            location: Location {
                line: 2,
                column: 1,
                offset: (0, 1)
            },
            children: vec![]
        })
    )
}

#[test]
fn multi_byte_token_advances_by_its_encoded_width() {
    // U+00E9 occupies two bytes in UTF-8, but only one column
    let parse_result: Result<Node<char>, Error> = any_token().parse("\u{e9}xy");

    assert_eq!(
        parse_result,
        Ok(Node {
            name: "anyToken",
            value: '\u{e9}',
            location: Location {
                line: 1,
                column: 2,
                offset: (0, 2)
            },
            children: vec![]
        })
    )
}

#[test]
fn three_byte_token_advances_by_three_bytes() {
    // U+20AC occupies three bytes in UTF-8
    let parse_result: Result<Node<char>, Error> = token('\u{20ac}').parse("\u{20ac}1");

    assert_eq!(
        parse_result,
        Ok(Node {
            name: "token",
            value: '\u{20ac}',
            location: Location {
                line: 1,
                column: 2,
                offset: (0, 3)
            },
            children: vec![]
        })
    )
}

#[test]
fn literal_spanning_a_newline_tracks_line_and_column() {
    let parse_result: Result<Node<String>, Error> = literal("ab\ncd").parse("ab\ncdef");

    assert_eq!(
        parse_result,
        Ok(Node {
            name: "literal",
            value: String::from("ab\ncd"),
            location: Location {
                line: 2,
                column: 3,
                offset: (0, 5)
            },
            children: vec![]
        })
    )
}

#[test]
fn exact_literal_consumes_the_whole_input() {
    let parse_result: Result<Node<String>, Error> = literal("hello").parse("hello");

    assert_eq!(
        parse_result,
        Ok(Node {
            name: "literal",
            value: String::from("hello"),
            location: Location {
                line: 1,
                column: 6,
                offset: (0, 5)
            },
            children: vec![]
        })
    )
}

#[test]
fn literal_mismatch_reports_the_first_word_of_the_rest() {
    let parse_result: Result<Node<String>, Error> = literal("hello").parse("help me please");

    assert_eq!(
        parse_result,
        Err(Error::InvalidLiteral {
            expected: Expected::Literal(String::from("hello")),
            found: String::from("help")
        })
    )
}

#[test]
fn literal_mismatch_on_all_whitespace_reports_the_whole_rest() {
    let parse_result: Result<Node<String>, Error> = literal("hi").parse("   ");

    assert_eq!(
        parse_result,
        Err(Error::InvalidLiteral {
            expected: Expected::Literal(String::from("hi")),
            found: String::from("   ")
        })
    )
}

#[test]
fn parsing_twice_returns_the_identical_result() {
    let parser = token('a');
    let first: Result<Node<char>, Error> = parser.parse("abc");
    let second: Result<Node<char>, Error> = parser.parse("abc");

    assert_eq!(first, second)
}

#[test]
fn one_parser_on_two_inputs_keeps_no_cursor_state() {
    let parser = any_token();
    let long: Result<Node<char>, Error> = parser.parse("xyz");
    assert!(long.is_ok());

    // a second invocation starts from a fresh context: column 2, not 3
    let short: Result<Node<char>, Error> = parser.parse("q");
    assert_eq!(
        short,
        Ok(Node {
            name: "anyToken",
            value: 'q',
            location: Location {
                line: 1,
                column: 2,
                offset: (0, 1)
            },
            children: vec![]
        })
    )
}
