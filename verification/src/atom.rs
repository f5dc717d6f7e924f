//! Atoms: symbols, numbers, strings, booleans and `nil`.
//!
//! A string literal runs from a `"` to the next `"` that no backslash stands
//! before. Inside it a backslash and the byte after it stand for one byte: a
//! line feed for `\n`, a tab for `\t`, and the byte itself for any other.
//! Every other atom is a run of constituent bytes, as long as it can be. The
//! run is a number where it is a numeric literal, `nil` or a boolean where it
//! is one of the reserved words `nil`, `true`, `#t`, `false` and `#f`, written
//! in lower case, and a symbol otherwise. A run that only looks like a number,
//! such as `1.2.3`, is a symbol.

use vstd::prelude::*;
use vstd::array::array_as_slice;
use vstd::slice::slice_subrange;
use vstd::slice::slice_to_vec;
use crate::ast::Atom;
use crate::ast::AtomValue;
use crate::chars::byte_at;
use crate::chars::classify;
use crate::chars::is_constituent;
use crate::chars::Category;
use crate::chars::BACKSLASH;
use crate::chars::DOUBLE_QUOTE;
use crate::chars::NEWLINE;
use crate::chars::TAB;
use crate::error::ErrorKind;
use crate::error::ExpectedSet;
use crate::error::Failure;
use crate::error::ParseError;
use crate::error::report_of;
use crate::number::is_numeric_literal;
use crate::number::number_value;
use crate::number::read_number;

verus! {

/// `n`
pub const LOWER_N: u8 = 110;

/// `t`
pub const LOWER_T: u8 = 116;

/// The bytes of `nil`.
pub open spec fn nil_word() -> Seq<u8> {
    seq![110u8, 105u8, 108u8]
}

/// The bytes of `true`.
pub open spec fn true_word() -> Seq<u8> {
    seq![116u8, 114u8, 117u8, 101u8]
}

/// The bytes of `false`.
pub open spec fn false_word() -> Seq<u8> {
    seq![102u8, 97u8, 108u8, 115u8, 101u8]
}

/// The bytes of `#t`.
pub open spec fn short_true_word() -> Seq<u8> {
    seq![35u8, 116u8]
}

/// The bytes of `#f`.
pub open spec fn short_false_word() -> Seq<u8> {
    seq![35u8, 102u8]
}

/// Whether `lexeme` is one of the reserved words.
pub open spec fn is_reserved_word(lexeme: Seq<u8>) -> bool {
    lexeme == nil_word() || lexeme == true_word() || lexeme == false_word() || lexeme
        == short_true_word() || lexeme == short_false_word()
}

/// Where the run of constituent bytes that starts at `pos` ends: `pos` itself
/// where no constituent stands there.
pub open spec fn constituent_end(s: Seq<u8>, pos: int) -> int
    decreases s.len() - pos,
{
    if 0 <= pos < s.len() && is_constituent(s[pos]) {
        constituent_end(s, pos + 1)
    } else {
        pos
    }
}

/// What a run of constituent bytes stands for.
pub open spec fn atom_of(lexeme: Seq<u8>) -> AtomValue {
    if is_numeric_literal(lexeme) {
        AtomValue::Number(number_value(lexeme))
    } else if lexeme == nil_word() {
        AtomValue::Nil
    } else if lexeme == true_word() || lexeme == short_true_word() {
        AtomValue::Bool(true)
    } else if lexeme == false_word() || lexeme == short_false_word() {
        AtomValue::Bool(false)
    } else {
        AtomValue::Symbol(lexeme)
    }
}

/// The byte that a backslash and `c` stand for in a string literal.
pub open spec fn unescape(c: u8) -> u8 {
    if c == LOWER_N {
        NEWLINE
    } else if c == LOWER_T {
        TAB
    } else {
        c
    }
}

/// Reads the rest of a string literal from `pos` on, after `content` has been
/// read of it: the whole content and the offset after the closing `"`, or the
/// error where the text ends first.
pub open spec fn string_body(s: Seq<u8>, pos: int, content: Seq<u8>) -> Result<
    (Seq<u8>, int),
    Failure,
>
    decreases s.len() - pos,
{
    if pos < 0 || pos >= s.len() {
        Err(
            Failure {
                kind: ErrorKind::UnterminatedString,
                offset: s.len() as int,
                expected: ExpectedSet::string_rest(),
            },
        )
    } else if s[pos] == DOUBLE_QUOTE {
        Ok((content, pos + 1))
    } else if s[pos] == BACKSLASH {
        if pos + 1 >= s.len() {
            Err(
                Failure {
                    kind: ErrorKind::UnterminatedString,
                    offset: s.len() as int,
                    expected: ExpectedSet::escape(),
                },
            )
        } else {
            string_body(s, pos + 2, content.push(unescape(s[pos + 1])))
        }
    } else {
        string_body(s, pos + 1, content.push(s[pos]))
    }
}

/// Reads the atom that starts at `pos`: a string literal where a `"` stands
/// there, and the run of constituent bytes otherwise. Gives the atom and the
/// offset after it.
pub open spec fn atom_at(s: Seq<u8>, pos: int) -> Result<(AtomValue, int), Failure> {
    if byte_at(s, pos, DOUBLE_QUOTE) {
        match string_body(s, pos + 1, Seq::empty()) {
            Ok((content, end)) => Ok((AtomValue::Str(content), end)),
            Err(failure) => Err(failure),
        }
    } else {
        Ok((atom_of(s.subrange(pos, constituent_end(s, pos))), constituent_end(s, pos)))
    }
}

/// A run of constituent bytes ends inside the text, holds constituents only,
/// and cannot be made longer.
pub proof fn lemma_constituent_end(s: Seq<u8>, pos: int)
    requires
        0 <= pos <= s.len(),
    ensures
        pos <= constituent_end(s, pos) <= s.len(),
        forall|i: int| pos <= i < constituent_end(s, pos) ==> is_constituent(#[trigger] s[i]),
        constituent_end(s, pos) < s.len() ==> !is_constituent(s[constituent_end(s, pos)]),
        pos < s.len() && is_constituent(s[pos]) ==> pos < constituent_end(s, pos),
    decreases s.len() - pos,
{
    if pos < s.len() && is_constituent(s[pos]) {
        lemma_constituent_end(s, pos + 1);
    }
}

/// A string literal that is read to its end stops after its start and inside
/// the text.
pub proof fn lemma_string_body_end(s: Seq<u8>, pos: int, content: Seq<u8>)
    requires
        0 <= pos <= s.len(),
    ensures
        string_body(s, pos, content) matches Ok((_, end)) ==> pos < end <= s.len(),
    decreases s.len() - pos,
{
    if pos < s.len() && s[pos] != DOUBLE_QUOTE {
        if s[pos] == BACKSLASH {
            if pos + 1 < s.len() {
                lemma_string_body_end(s, pos + 2, content.push(unescape(s[pos + 1])));
            }
        } else {
            lemma_string_body_end(s, pos + 1, content.push(s[pos]));
        }
    }
}

/// Whether `a` and `b` hold the same bytes.
fn same_bytes(a: &[u8], b: &[u8]) -> (same: bool)
    ensures
        same == (a@ == b@),
{
    if a.len() != b.len() {
        return false;
    }
    let mut i: usize = 0;
    while i < a.len()
        invariant
            a@.len() == b@.len(),
            i <= a@.len(),
            forall|j: int| 0 <= j < i ==> a@[j] == b@[j],
        decreases a@.len() - i,
    {
        if a[i] != b[i] {
            return false;
        }
        i = i + 1;
    }
    assert(a@ =~= b@);
    true
}

/// Tells which atom a run of constituent bytes is.
pub fn classify_lexeme(lexeme: &[u8]) -> (atom: Atom)
    ensures
        atom@ == atom_of(lexeme@),
{
    match read_number(lexeme) {
        Some(n) => {
            return Atom::Number(n);
        },
        None => {},
    }
    let nil: [u8; 3] = [110, 105, 108];
    let long_true: [u8; 4] = [116, 114, 117, 101];
    let long_false: [u8; 5] = [102, 97, 108, 115, 101];
    let short_true: [u8; 2] = [35, 116];
    let short_false: [u8; 2] = [35, 102];
    proof {
        assert(nil@ =~= nil_word());
        assert(long_true@ =~= true_word());
        assert(long_false@ =~= false_word());
        assert(short_true@ =~= short_true_word());
        assert(short_false@ =~= short_false_word());
    }
    if same_bytes(lexeme, array_as_slice(&nil)) {
        Atom::Nil
    } else if same_bytes(lexeme, array_as_slice(&long_true)) || same_bytes(
        lexeme,
        array_as_slice(&short_true),
    ) {
        Atom::Bool(true)
    } else if same_bytes(lexeme, array_as_slice(&long_false)) || same_bytes(
        lexeme,
        array_as_slice(&short_false),
    ) {
        Atom::Bool(false)
    } else {
        Atom::Symbol(slice_to_vec(lexeme))
    }
}

/// Finds the end of the run of constituent bytes at `pos`.
fn scan_constituents(source: &[u8], pos: usize) -> (end: usize)
    requires
        pos <= source@.len(),
    ensures
        end == constituent_end(source@, pos as int),
        pos <= end <= source@.len(),
{
    let mut i: usize = pos;
    while i < source.len() && classify(source[i]) == Category::SymbolConstituent
        invariant
            pos <= i <= source@.len(),
            constituent_end(source@, pos as int) == constituent_end(source@, i as int),
        decreases source@.len() - i,
    {
        i = i + 1;
    }
    i
}

/// Reads the string literal whose content starts at `body`, after its opening
/// `"`.
fn read_string(source: &[u8], body: usize) -> (result: Result<(Vec<u8>, usize), ParseError>)
    requires
        body <= source@.len(),
    ensures
        match string_body(source@, body as int, Seq::empty()) {
            Ok((content, end)) => result matches Ok((bytes, next)) && bytes@ == content && next
                == end,
            Err(failure) => result == Err::<(Vec<u8>, usize), ParseError>(
                report_of(source@, failure),
            ),
        },
{
    let len = source.len();
    let mut content: Vec<u8> = Vec::new();
    let mut pos: usize = body;
    loop
        invariant
            body <= pos <= len == source@.len(),
            string_body(source@, body as int, Seq::empty()) == string_body(
                source@,
                pos as int,
                content@,
            ),
        decreases len - pos,
    {
        if pos >= len {
            return Err(
                ParseError::at(
                    source,
                    ErrorKind::UnterminatedString,
                    len,
                    ExpectedSet {
                        expression: false,
                        close_list: false,
                        close_vector: false,
                        string_character: true,
                        string_delimiter: true,
                        escaped_character: false,
                    },
                ),
            );
        }
        let c = source[pos];
        if c == DOUBLE_QUOTE {
            return Ok((content, pos + 1));
        } else if c == BACKSLASH {
            if pos + 1 >= len {
                return Err(
                    ParseError::at(
                        source,
                        ErrorKind::UnterminatedString,
                        len,
                        ExpectedSet {
                            expression: false,
                            close_list: false,
                            close_vector: false,
                            string_character: false,
                            string_delimiter: false,
                            escaped_character: true,
                        },
                    ),
                );
            }
            let escaped = source[pos + 1];
            let byte: u8 = if escaped == LOWER_N {
                NEWLINE
            } else if escaped == LOWER_T {
                TAB
            } else {
                escaped
            };
            content.push(byte);
            pos = pos + 2;
        } else {
            content.push(c);
            pos = pos + 1;
        }
    }
}

/// Reads the atom that starts at `start`, where a string literal or a run of
/// constituent bytes starts there, and gives it with the offset after it.
pub fn read_atom(source: &[u8], start: usize) -> (result: Result<(Atom, usize), ParseError>)
    requires
        start < source@.len(),
        source@[start as int] == DOUBLE_QUOTE || is_constituent(source@[start as int]),
    ensures
        match atom_at(source@, start as int) {
            Ok((value, end)) => result matches Ok((atom, next)) && atom@ == value && next == end,
            Err(failure) => result == Err::<(Atom, usize), ParseError>(
                report_of(source@, failure),
            ),
        },
{
    if source[start] == DOUBLE_QUOTE {
        match read_string(source, start + 1) {
            Ok((content, next)) => Ok((Atom::Str(content), next)),
            Err(error) => Err(error),
        }
    } else {
        let end = scan_constituents(source, start);
        let atom = classify_lexeme(slice_subrange(source, start, end));
        Ok((atom, end))
    }
}

} // verus!
