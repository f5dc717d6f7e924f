use lisp_parser::parse_bytes;
use lisp_parser::parse_program;
use lisp_parser::render::render_expr;
use lisp_parser::render::render_program;
use lisp_parser::render::write_expr;
use lisp_parser::AstNode;
use lisp_parser::Atom;
use lisp_parser::Number;

fn rendered(source: &str) -> String {
    let forms = parse_program(source, "render.lisp").unwrap();
    String::from_utf8(render_program(&forms)).unwrap()
}

fn reads_back(source: &[u8]) {
    let forms = parse_bytes(source).unwrap();
    let canonical = render_program(&forms);
    let again = parse_bytes(&canonical).unwrap();
    assert_eq!(again, forms);
    assert_eq!(render_program(&again), canonical);
}

#[test]
fn canonical_text_of_atoms() {
    assert_eq!(rendered("abc"), "abc\n");
    assert_eq!(rendered("+42"), "42\n");
    assert_eq!(rendered("-007"), "-7\n");
    assert_eq!(rendered("-0"), "0\n");
    assert_eq!(rendered("1.50"), "1.50\n");
    assert_eq!(rendered("#t #f true false nil"), "true\nfalse\ntrue\nfalse\nnil\n");
}

#[test]
fn canonical_text_of_integers_at_the_limits() {
    let max = AstNode::Atom(Atom::Number(Number::Integer(i64::MAX)));
    let min = AstNode::Atom(Atom::Number(Number::Integer(i64::MIN)));
    let ten = AstNode::Atom(Atom::Number(Number::Integer(10)));
    assert_eq!(render_expr(&max), b"9223372036854775807".to_vec());
    assert_eq!(render_expr(&min), b"-9223372036854775808".to_vec());
    assert_eq!(render_expr(&ten), b"10".to_vec());
}

#[test]
fn canonical_text_of_strings() {
    assert_eq!(rendered("\"\""), "\"\"\n");
    assert_eq!(rendered("\"a\\nb\""), "\"a\\nb\"\n");
    assert_eq!(rendered("\"a\nb\""), "\"a\\nb\"\n");
    assert_eq!(rendered("\"a\\tb\\qc\""), "\"a\\tbqc\"\n");
    assert_eq!(rendered("\"q\\\"\\\\\""), "\"q\\\"\\\\\"\n");
}

#[test]
fn canonical_text_of_sequences() {
    assert_eq!(rendered("()"), "()\n");
    assert_eq!(rendered("[ ]"), "[]\n");
    assert_eq!(rendered("( a )"), "(a)\n");
    assert_eq!(rendered("(a   b\n\tc)"), "(a b c)\n");
    assert_eq!(rendered("[1 [2 (3)] ()]"), "[1 [2 (3)] ()]\n");
    assert_eq!(rendered("(a) ; gone\n[b]"), "(a)\n[b]\n");
}

#[test]
fn canonical_text_of_quoted_forms() {
    assert_eq!(rendered("'x"), "(quote x)\n");
    assert_eq!(rendered("`(a ,b ,@c)"), "(quasiquote (a (unquote b) (unquote-splicing c)))\n");
    assert_eq!(rendered("''x"), "(quote (quote x))\n");
}

#[test]
fn canonical_text_reads_back() {
    reads_back(b"");
    reads_back(b"a");
    reads_back(b"(1 2 3)");
    reads_back(b"1 2 3");
    reads_back(b"'x `y ,z ,@w ''v");
    reads_back(b"() [] (()) [[]] ([]) [()]");
    reads_back(b"+5 -0 007 1.5 1e5 -2.5E+10 99999999999999999999 9223372036854775807");
    reads_back(b"-9223372036854775808 -9223372036854775809");
    reads_back(b"1.2.3 1. .5 + - 1e nil? #true NIL");
    reads_back(b"nil true false #t #f");
    reads_back(b"\"\" \"a\\nb\" \"tab\\there\" \"q\\\"q\" \"b\\\\s\" \"x\\yz\" \"two\nlines\"");
    reads_back(b"(define (f x) ; comment\n  (if (< x 2) x [x \"s\" 'y]))\n(f 10)");
    reads_back(&[b'(', 0xff, 0x80, b' ', b'"', 0x00, 0xfe, b'"', b')']);
}

#[test]
fn canonical_text_is_its_own_canonical_text() {
    for source in ["(a b)\n", "(quote x)\n[1 \"two\" 3.0]\n", "\"\\\\\"\nnil\n"] {
        assert_eq!(rendered(source), source);
    }
}

#[test]
fn write_expr_appends_to_what_is_there() {
    let mut out = b"=> ".to_vec();
    let node = AstNode::List(vec![
        AstNode::Atom(Atom::Symbol(b"a".to_vec())),
        AstNode::Vector(vec![AstNode::Atom(Atom::Bool(false)), AstNode::Atom(Atom::Nil)]),
        AstNode::Atom(Atom::Str(b"x\ty".to_vec())),
        AstNode::Atom(Atom::Number(Number::Real(b"2.50".to_vec()))),
    ]);
    write_expr(&node, &mut out);
    assert_eq!(out, b"=> (a [false nil] \"x\\ty\" 2.50)".to_vec());
    write_expr(&AstNode::Atom(Atom::Number(Number::Integer(-45))), &mut out);
    assert_eq!(out, b"=> (a [false nil] \"x\\ty\" 2.50)-45".to_vec());
}
