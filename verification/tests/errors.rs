use lisp_parser::atom::read_atom;
use lisp_parser::grammar::Grouping;
use lisp_parser::parse_bytes;
use lisp_parser::parse_expr;
use lisp_parser::parse_program;
use lisp_parser::parser::parse_items;
use lisp_parser::parser::parse_quoted;
use lisp_parser::position::position_at;
use lisp_parser::quote::QuoteKind;
use lisp_parser::ErrorKind;
use lisp_parser::ExpectedSet;
use lisp_parser::ParseError;
use lisp_parser::Position;
use lisp_parser::Production;

fn failure(source: &str) -> ParseError {
    parse_program(source, "errors.lisp").unwrap_err()
}

fn only_expression() -> Vec<Production> {
    vec![Production::Expression]
}

#[test]
fn unterminated_list_points_at_the_end_of_input() {
    let error = failure("(1 2");
    assert_eq!(error.kind, ErrorKind::UnterminatedList);
    assert_eq!(error.line, 1);
    assert_eq!(error.column, 4);
    assert_eq!(error.expected.productions(), vec![Production::Expression, Production::CloseList]);
}

#[test]
fn unterminated_list_over_lines_points_at_the_last_line() {
    let error = failure("(1\n  (2\n 3)\n");
    assert_eq!(error.kind, ErrorKind::UnterminatedList);
    assert_eq!(error.line, 4);
    assert_eq!(error.column, 12);
}

#[test]
fn unterminated_vector_points_at_the_end_of_input() {
    let error = failure("[a b ; rest\n");
    assert_eq!(error.kind, ErrorKind::UnterminatedVector);
    assert_eq!(error.line, 2);
    assert_eq!(error.column, 12);
    assert_eq!(error.expected.productions(), vec![Production::Expression, Production::CloseVector]);
}

#[test]
fn innermost_open_sequence_names_the_error() {
    assert_eq!(failure("([1 2").kind, ErrorKind::UnterminatedVector);
    assert_eq!(failure("[(1 2").kind, ErrorKind::UnterminatedList);
    assert_eq!(failure("[(1 2)").kind, ErrorKind::UnterminatedVector);
}

#[test]
fn unterminated_string_points_at_the_end_of_input() {
    let error = failure("(\"abc");
    assert_eq!(error.kind, ErrorKind::UnterminatedString);
    assert_eq!(error.line, 1);
    assert_eq!(error.column, 5);
    assert_eq!(
        error.expected.productions(),
        vec![Production::StringCharacter, Production::StringDelimiter]
    );
}

#[test]
fn escaped_quote_does_not_end_a_string() {
    let error = failure("\"abc\\\"");
    assert_eq!(error.kind, ErrorKind::UnterminatedString);
    assert_eq!(error.column, 6);
    assert_eq!(
        error.expected.productions(),
        vec![Production::StringCharacter, Production::StringDelimiter]
    );
}

#[test]
fn backslash_at_the_end_expects_the_escaped_byte() {
    let error = failure("\"abc\\");
    assert_eq!(error.kind, ErrorKind::UnterminatedString);
    assert_eq!(error.line, 1);
    assert_eq!(error.column, 5);
    assert_eq!(error.expected.productions(), vec![Production::EscapedCharacter]);
}

#[test]
fn mismatched_delimiter_in_a_list() {
    let error = failure("(1 2]");
    assert_eq!(error.kind, ErrorKind::MismatchedDelimiter);
    assert_eq!(error.line, 1);
    assert_eq!(error.column, 4);
    assert_eq!(error.expected.productions(), vec![Production::Expression, Production::CloseList]);
}

#[test]
fn mismatched_delimiter_in_a_vector() {
    let error = failure("[1\n2 )");
    assert_eq!(error.kind, ErrorKind::MismatchedDelimiter);
    assert_eq!(error.line, 2);
    assert_eq!(error.column, 5);
    assert_eq!(error.expected.productions(), vec![Production::Expression, Production::CloseVector]);
}

#[test]
fn unexpected_closing_delimiter_at_top_level() {
    let error = failure("(a) )");
    assert_eq!(error.kind, ErrorKind::UnexpectedClosingDelimiter);
    assert_eq!(error.line, 1);
    assert_eq!(error.column, 4);
    assert_eq!(error.expected.productions(), only_expression());
    assert_eq!(failure("]").kind, ErrorKind::UnexpectedClosingDelimiter);
}

#[test]
fn dangling_quote_prefix_at_the_end() {
    let error = failure("'");
    assert_eq!(error.kind, ErrorKind::DanglingQuotePrefix);
    assert_eq!(error.line, 1);
    assert_eq!(error.column, 1);
    assert_eq!(error.expected.productions(), only_expression());
}

#[test]
fn every_prefix_can_dangle() {
    assert_eq!(failure("`").kind, ErrorKind::DanglingQuotePrefix);
    assert_eq!(failure(",").kind, ErrorKind::DanglingQuotePrefix);
    assert_eq!(failure(",@").kind, ErrorKind::DanglingQuotePrefix);
    assert_eq!(failure(",@").column, 2);
    assert_eq!(failure("''").kind, ErrorKind::DanglingQuotePrefix);
    assert_eq!(failure("'  ; nothing\n").kind, ErrorKind::DanglingQuotePrefix);
    assert_eq!(failure("'  ; nothing\n").line, 2);
    assert_eq!(failure("'  ; nothing\n").column, 13);
}

#[test]
fn dangling_quote_prefix_before_a_closing_delimiter() {
    let error = failure("(a ')");
    assert_eq!(error.kind, ErrorKind::DanglingQuotePrefix);
    assert_eq!(error.line, 1);
    assert_eq!(error.column, 4);
    assert_eq!(error.expected.productions(), only_expression());
    assert_eq!(failure("[` ]").kind, ErrorKind::DanglingQuotePrefix);
    assert_eq!(failure("[` ]").column, 3);
}

#[test]
fn error_in_a_quoted_operand_is_reported_as_it_is() {
    assert_eq!(failure("'(1").kind, ErrorKind::UnterminatedList);
    assert_eq!(failure("'\"abc").kind, ErrorKind::UnterminatedString);
}

#[test]
fn unexpected_end_of_input_where_an_expression_is_asked_for() {
    let error = parse_expr(b"  ; only a comment\n ", 0).unwrap_err();
    assert_eq!(error.kind, ErrorKind::UnexpectedEndOfInput);
    assert_eq!(error.line, 2);
    assert_eq!(error.column, 20);
    assert_eq!(error.expected.productions(), only_expression());
    assert_eq!(parse_expr(b"", 0).unwrap_err().kind, ErrorKind::UnexpectedEndOfInput);
    assert_eq!(parse_expr(b"abc", 3).unwrap_err().kind, ErrorKind::UnexpectedEndOfInput);
    assert_eq!(parse_expr(b"abc", 99).unwrap_err().column, 3);
}

#[test]
fn clean_end_of_input_between_forms_is_no_error() {
    assert!(parse_program("(a)\n\n", "errors.lisp").is_ok());
    assert!(parse_program("(a) ; done", "errors.lisp").is_ok());
}

#[test]
fn first_error_stops_the_reading() {
    let error = failure("(a b]\n(c d");
    assert_eq!(error.kind, ErrorKind::MismatchedDelimiter);
    assert_eq!(error.column, 4);
    let error = failure(") \"abc");
    assert_eq!(error.kind, ErrorKind::UnexpectedClosingDelimiter);
    assert_eq!(error.column, 0);
}

#[test]
fn column_is_the_byte_offset_into_the_whole_text() {
    let error = failure("(a b)\n(c d)\n   ]");
    assert_eq!(error.kind, ErrorKind::UnexpectedClosingDelimiter);
    assert_eq!(error.line, 3);
    assert_eq!(error.column, 15);
    assert_eq!(position_at(b"(a b)\n(c d)\n   ]", 15), Position { line: 3, column: 3 });
}

#[test]
fn column_counts_bytes_not_characters() {
    let error = failure("λλ )");
    assert_eq!(error.column, 5);
    let error = parse_bytes(&[0xff, 0xfe, b')']).unwrap_err();
    assert_eq!(error.column, 2);
}

#[test]
fn parse_items_reports_its_own_errors() {
    let error = parse_items(b"(a b", 1, Grouping::List).unwrap_err();
    assert_eq!(error.kind, ErrorKind::UnterminatedList);
    assert_eq!(error.column, 4);
    let error = parse_items(b"a b)", 0, Grouping::Vector).unwrap_err();
    assert_eq!(error.kind, ErrorKind::MismatchedDelimiter);
    assert_eq!(error.column, 3);
    let error = parse_items(b"abc", 17, Grouping::Vector).unwrap_err();
    assert_eq!(error.kind, ErrorKind::UnterminatedVector);
    assert_eq!(error.column, 3);
}

#[test]
fn parse_quoted_reports_a_dangling_prefix() {
    let error = parse_quoted(b"(' )", QuoteKind::Quote, 2).unwrap_err();
    assert_eq!(error.kind, ErrorKind::DanglingQuotePrefix);
    assert_eq!(error.column, 3);
}

#[test]
fn read_atom_reports_an_unterminated_string() {
    let error = read_atom(b"x \"yz\n", 2).unwrap_err();
    assert_eq!(error.kind, ErrorKind::UnterminatedString);
    assert_eq!(error.line, 2);
    assert_eq!(error.column, 6);
}

#[test]
fn error_reports_are_built_from_the_place() {
    let set = ExpectedSet {
        expression: true,
        close_list: false,
        close_vector: true,
        string_character: false,
        string_delimiter: false,
        escaped_character: false,
    };
    let error = ParseError::at(b"a\nb\nc", ErrorKind::MismatchedDelimiter, 4, set);
    assert_eq!(
        error,
        ParseError { kind: ErrorKind::MismatchedDelimiter, line: 3, column: 4, expected: set }
    );
}

#[test]
fn expected_sets_list_their_members() {
    let set = ExpectedSet {
        expression: true,
        close_list: true,
        close_vector: false,
        string_character: false,
        string_delimiter: true,
        escaped_character: false,
    };
    assert!(set.contains(Production::Expression));
    assert!(set.contains(Production::CloseList));
    assert!(!set.contains(Production::CloseVector));
    assert!(!set.contains(Production::StringCharacter));
    assert!(set.contains(Production::StringDelimiter));
    assert!(!set.contains(Production::EscapedCharacter));
    assert_eq!(
        set.productions(),
        vec![Production::Expression, Production::CloseList, Production::StringDelimiter]
    );
}

#[test]
fn productions_have_readable_names() {
    assert_eq!(Production::Expression.name(), "expression");
    assert_eq!(Production::CloseList.name(), ")");
    assert_eq!(Production::CloseVector.name(), "]");
    assert_eq!(Production::StringCharacter.name(), "string character");
    assert_eq!(Production::StringDelimiter.name(), "\"");
    assert_eq!(Production::EscapedCharacter.name(), "escaped character");
}

#[test]
fn positions_follow_the_line_feeds() {
    let source = b"ab\ncd\n\nefg";
    assert_eq!(position_at(source, 0), Position { line: 1, column: 0 });
    assert_eq!(position_at(source, 2), Position { line: 1, column: 2 });
    assert_eq!(position_at(source, 3), Position { line: 2, column: 0 });
    assert_eq!(position_at(source, 4), Position { line: 2, column: 1 });
    assert_eq!(position_at(source, 6), Position { line: 3, column: 0 });
    assert_eq!(position_at(source, 7), Position { line: 4, column: 0 });
    assert_eq!(position_at(source, 10), Position { line: 4, column: 3 });
    assert_eq!(position_at(source, 11), Position { line: 4, column: 3 });
    assert_eq!(position_at(b"", 0), Position { line: 1, column: 0 });
}

#[test]
fn carriage_return_does_not_start_a_line() {
    assert_eq!(position_at(b"a\r\nb", 2), Position { line: 1, column: 2 });
    assert_eq!(position_at(b"a\r\nb", 3), Position { line: 2, column: 0 });
    assert_eq!(position_at(b"a\rb", 3), Position { line: 1, column: 3 });
}

#[test]
fn positions_advance_byte_by_byte() {
    let start = Position::start();
    assert_eq!(start, Position { line: 1, column: 0 });
    assert_eq!(start.advance(b'a'), Position { line: 1, column: 1 });
    assert_eq!(start.advance(b'a').advance(b'\n'), Position { line: 2, column: 0 });
    assert_eq!(start.advance(b'\n').advance(b'\t'), Position { line: 2, column: 1 });
}

#[test]
fn positions_stay_at_the_largest_count() {
    let full = Position { line: usize::MAX, column: usize::MAX };
    assert_eq!(full.advance(b'a'), Position { line: usize::MAX, column: usize::MAX });
    assert_eq!(full.advance(b'\n'), Position { line: usize::MAX, column: 0 });
}
