use lisp_parser::atom::classify_lexeme;
use lisp_parser::atom::read_atom;
use lisp_parser::chars::classify;
use lisp_parser::chars::skip_whitespace_and_comments;
use lisp_parser::chars::Category;
use lisp_parser::number::read_number;
use lisp_parser::parse_program;
use lisp_parser::AstNode;
use lisp_parser::Atom;
use lisp_parser::Number;

fn atom_of(source: &str) -> Atom {
    let mut forms = parse_program(source, "atoms.lisp").unwrap();
    assert_eq!(forms.len(), 1);
    match forms.pop().unwrap() {
        AstNode::Atom(atom) => atom,
        other => panic!("not an atom: {:?}", other),
    }
}

fn symbol(name: &str) -> Atom {
    Atom::Symbol(name.as_bytes().to_vec())
}

fn literal(written: &str) -> Atom {
    Atom::Number(Number::Real(written.as_bytes().to_vec()))
}

fn integer(n: i64) -> Atom {
    Atom::Number(Number::Integer(n))
}

#[test]
fn every_byte_has_its_category() {
    assert_eq!(classify(b' '), Category::Whitespace);
    assert_eq!(classify(b'\t'), Category::Whitespace);
    assert_eq!(classify(b'\n'), Category::Whitespace);
    assert_eq!(classify(b'\r'), Category::Whitespace);
    assert_eq!(classify(b'('), Category::OpenList);
    assert_eq!(classify(b')'), Category::CloseList);
    assert_eq!(classify(b'['), Category::OpenVector);
    assert_eq!(classify(b']'), Category::CloseVector);
    assert_eq!(classify(b'"'), Category::StringDelimiter);
    assert_eq!(classify(b';'), Category::CommentStart);
    assert_eq!(classify(b'\''), Category::QuotePrefixChar);
    assert_eq!(classify(b'`'), Category::QuotePrefixChar);
    assert_eq!(classify(b','), Category::QuotePrefixChar);
    let special = b" \t\n\r()[]\";'`,";
    for c in 0..=255u8 {
        if !special.contains(&c) {
            assert_eq!(classify(c), Category::SymbolConstituent);
        }
    }
}

#[test]
fn trivia_is_skipped_up_to_the_next_token() {
    assert_eq!(skip_whitespace_and_comments(b"  x", 0), 2);
    assert_eq!(skip_whitespace_and_comments(b"x  ", 0), 0);
    assert_eq!(skip_whitespace_and_comments(b"x  ", 1), 3);
    assert_eq!(skip_whitespace_and_comments(b" ; c ; d\n\t x", 0), 11);
    assert_eq!(skip_whitespace_and_comments(b"; c", 0), 3);
    assert_eq!(skip_whitespace_and_comments(b"a ; c\nb", 1), 6);
    assert_eq!(skip_whitespace_and_comments(b"abc", 3), 3);
    assert_eq!(skip_whitespace_and_comments(b"abc", 9), 3);
    assert_eq!(skip_whitespace_and_comments(b"", 0), 0);
}

#[test]
fn integers_are_read_by_value() {
    assert_eq!(atom_of("0"), integer(0));
    assert_eq!(atom_of("42"), integer(42));
    assert_eq!(atom_of("-42"), integer(-42));
    assert_eq!(atom_of("+42"), integer(42));
    assert_eq!(atom_of("007"), integer(7));
    assert_eq!(atom_of("-0"), integer(0));
    assert_eq!(atom_of("1234567890"), integer(1234567890));
}

#[test]
fn integers_reach_the_limits_of_64_bits() {
    assert_eq!(atom_of("9223372036854775807"), integer(i64::MAX));
    assert_eq!(atom_of("-9223372036854775808"), integer(i64::MIN));
    assert_eq!(atom_of("+9223372036854775807"), integer(i64::MAX));
    assert_eq!(atom_of("0000000000000000000000009223372036854775807"), integer(i64::MAX));
}

#[test]
fn integers_beyond_64_bits_keep_their_text() {
    assert_eq!(atom_of("9223372036854775808"), literal("9223372036854775808"));
    assert_eq!(atom_of("-9223372036854775809"), literal("-9223372036854775809"));
    assert_eq!(atom_of("18446744073709551616"), literal("18446744073709551616"));
    assert_eq!(
        atom_of("340282366920938463463374607431768211456"),
        literal("340282366920938463463374607431768211456")
    );
    assert_eq!(atom_of("99999999999999999999999999"), literal("99999999999999999999999999"));
}

#[test]
fn fractions_and_exponents_keep_their_text() {
    assert_eq!(atom_of("1.5"), literal("1.5"));
    assert_eq!(atom_of("-0.25"), literal("-0.25"));
    assert_eq!(atom_of("+3.0"), literal("+3.0"));
    assert_eq!(atom_of("1e5"), literal("1e5"));
    assert_eq!(atom_of("1E5"), literal("1E5"));
    assert_eq!(atom_of("1e-5"), literal("1e-5"));
    assert_eq!(atom_of("1e+5"), literal("1e+5"));
    assert_eq!(atom_of("-2.5e+10"), literal("-2.5e+10"));
    assert_eq!(atom_of("6.02E23"), literal("6.02E23"));
}

#[test]
fn real_literals_hold_the_written_value() {
    match atom_of("-2.5e+3") {
        Atom::Number(Number::Real(literal)) => {
            let value: f64 = String::from_utf8(literal).unwrap().parse().unwrap();
            assert_eq!(value, -2500.0);
        }
        other => panic!("not a real: {:?}", other),
    }
}

#[test]
fn malformed_numbers_are_symbols() {
    assert_eq!(atom_of("1.2.3"), symbol("1.2.3"));
    assert_eq!(atom_of("1."), symbol("1."));
    assert_eq!(atom_of(".5"), symbol(".5"));
    assert_eq!(atom_of("1e"), symbol("1e"));
    assert_eq!(atom_of("1e+"), symbol("1e+"));
    assert_eq!(atom_of("1e5.0"), symbol("1e5.0"));
    assert_eq!(atom_of("1e5e5"), symbol("1e5e5"));
    assert_eq!(atom_of("1.e5"), symbol("1.e5"));
    assert_eq!(atom_of("+"), symbol("+"));
    assert_eq!(atom_of("-"), symbol("-"));
    assert_eq!(atom_of("+-1"), symbol("+-1"));
    assert_eq!(atom_of("--1"), symbol("--1"));
    assert_eq!(atom_of("1x"), symbol("1x"));
    assert_eq!(atom_of("x1"), symbol("x1"));
    assert_eq!(atom_of("e5"), symbol("e5"));
    assert_eq!(atom_of("12a4"), symbol("12a4"));
    assert_eq!(atom_of("1-2"), symbol("1-2"));
}

#[test]
fn read_number_accepts_numeric_literals_only() {
    assert_eq!(read_number(b"12"), Some(Number::Integer(12)));
    assert_eq!(read_number(b"-12"), Some(Number::Integer(-12)));
    assert_eq!(read_number(b"1.25"), Some(Number::Real(b"1.25".to_vec())));
    assert_eq!(read_number(b""), None);
    assert_eq!(read_number(b"abc"), None);
    assert_eq!(read_number(b"1.2.3"), None);
    assert_eq!(read_number(b"12 "), None);
    assert_eq!(read_number(b" 12"), None);
}

#[test]
fn reserved_words_are_nil_and_booleans() {
    assert_eq!(atom_of("nil"), Atom::Nil);
    assert_eq!(atom_of("true"), Atom::Bool(true));
    assert_eq!(atom_of("#t"), Atom::Bool(true));
    assert_eq!(atom_of("false"), Atom::Bool(false));
    assert_eq!(atom_of("#f"), Atom::Bool(false));
}

#[test]
fn reserved_words_are_lower_case_and_whole() {
    assert_eq!(atom_of("Nil"), symbol("Nil"));
    assert_eq!(atom_of("NIL"), symbol("NIL"));
    assert_eq!(atom_of("True"), symbol("True"));
    assert_eq!(atom_of("FALSE"), symbol("FALSE"));
    assert_eq!(atom_of("#T"), symbol("#T"));
    assert_eq!(atom_of("#F"), symbol("#F"));
    assert_eq!(atom_of("nil?"), symbol("nil?"));
    assert_eq!(atom_of("truely"), symbol("truely"));
    assert_eq!(atom_of("#true"), symbol("#true"));
    assert_eq!(atom_of("ni"), symbol("ni"));
    assert_eq!(atom_of("#"), symbol("#"));
}

#[test]
fn symbols_keep_their_case_and_bytes() {
    assert_eq!(atom_of("Hello-World!"), symbol("Hello-World!"));
    assert_eq!(atom_of("<=>"), symbol("<=>"));
    assert_eq!(atom_of("a.b/c:d"), symbol("a.b/c:d"));
    assert_eq!(atom_of("{x}"), symbol("{x}"));
    assert_eq!(atom_of("a\\b"), symbol("a\\b"));
}

#[test]
fn classify_lexeme_tells_the_atoms_apart() {
    assert_eq!(classify_lexeme(b"17"), integer(17));
    assert_eq!(classify_lexeme(b"1.7"), literal("1.7"));
    assert_eq!(classify_lexeme(b"nil"), Atom::Nil);
    assert_eq!(classify_lexeme(b"#t"), Atom::Bool(true));
    assert_eq!(classify_lexeme(b"false"), Atom::Bool(false));
    assert_eq!(classify_lexeme(b"seventeen"), symbol("seventeen"));
}

#[test]
fn strings_resolve_their_escapes() {
    assert_eq!(atom_of("\"\""), Atom::Str(vec![]));
    assert_eq!(atom_of("\"plain\""), Atom::Str(b"plain".to_vec()));
    assert_eq!(atom_of("\"a\\nb\""), Atom::Str(b"a\nb".to_vec()));
    assert_eq!(atom_of("\"a\\tb\""), Atom::Str(b"a\tb".to_vec()));
    assert_eq!(atom_of("\"say \\\"hi\\\"\""), Atom::Str(b"say \"hi\"".to_vec()));
    assert_eq!(atom_of("\"back\\\\slash\""), Atom::Str(b"back\\slash".to_vec()));
    assert_eq!(atom_of("\"\\\\\""), Atom::Str(b"\\".to_vec()));
}

#[test]
fn a_backslash_before_any_other_byte_gives_that_byte() {
    assert_eq!(atom_of("\"\\q\""), Atom::Str(b"q".to_vec()));
    assert_eq!(atom_of("\"\\r\""), Atom::Str(b"r".to_vec()));
    assert_eq!(atom_of("\"\\ \""), Atom::Str(b" ".to_vec()));
    assert_eq!(atom_of("\"\\\n\""), Atom::Str(b"\n".to_vec()));
}

#[test]
fn strings_hold_delimiters_and_line_feeds() {
    assert_eq!(atom_of("\"(a [b] ; c 'd)\""), Atom::Str(b"(a [b] ; c 'd)".to_vec()));
    assert_eq!(atom_of("\"two\nlines\""), Atom::Str(b"two\nlines".to_vec()));
}

#[test]
fn read_atom_gives_the_offset_after_the_atom() {
    assert_eq!(read_atom(b"abc def", 0), Ok((symbol("abc"), 3)));
    assert_eq!(read_atom(b"abc def", 4), Ok((symbol("def"), 7)));
    assert_eq!(read_atom(b"abc def", 1), Ok((symbol("bc"), 3)));
    assert_eq!(read_atom(b"(12)", 1), Ok((integer(12), 3)));
    assert_eq!(read_atom(b"\"a b\" c", 0), Ok((Atom::Str(b"a b".to_vec()), 5)));
    assert_eq!(read_atom(b"x\"\\\"\"", 1), Ok((Atom::Str(b"\"".to_vec()), 5)));
}
