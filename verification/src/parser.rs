//! The reader: expressions, sequences, quoted forms and whole programs.

use vstd::prelude::*;
use vstd::string::StringSliceAdditionalSpecFns;
use crate::ast::AstNode;
use crate::ast::Syntax;
use crate::ast::all_well_formed;
use crate::ast::lemma_view_of_items;
use crate::ast::syntax_of;
use crate::atom::lemma_constituent_end;
use crate::atom::lemma_string_body_end;
use crate::atom::read_atom;
use crate::chars::CLOSE_BRACKET;
use crate::chars::CLOSE_PAREN;
use crate::chars::Category;
use crate::chars::classify;
use crate::chars::lemma_skip_trivia_bounds;
use crate::chars::skip_whitespace_and_comments;
use crate::error::ErrorKind;
use crate::error::ExpectedSet;
use crate::error::Failure;
use crate::error::ParseError;
use crate::error::report_of;
use crate::grammar::Grouping;
use crate::grammar::expr_at;
use crate::grammar::forms_at;
use crate::grammar::items_at;
use crate::grammar::program_of;
use crate::grammar::quoted_at;
use crate::outcome::lemma_expr_outcome;
use crate::outcome::lemma_items_outcome;
use crate::outcome::lemma_quoted_outcome;
use crate::outcome::theorem_program_outcome;
use crate::quote::QuoteKind;
use crate::quote::read_prefix;

verus! {

/// Whether `result` is what the grammar gives for one expression of `s`: the
/// node that stands for the same expression and the same offset after it, or
/// the report of the same error.
pub open spec fn reads_as(
    s: Seq<u8>,
    result: Result<(AstNode, usize), ParseError>,
    outcome: Result<(Syntax, int), Failure>,
) -> bool {
    match outcome {
        Ok((syntax, end)) => result matches Ok((node, next)) && node@ == syntax && next == end,
        Err(failure) => result matches Err(error) && error == report_of(s, failure),
    }
}

/// Whether `result` is what the grammar gives for a run of expressions of `s`
/// that a delimiter closes.
pub open spec fn reads_items_as(
    s: Seq<u8>,
    result: Result<(Vec<AstNode>, usize), ParseError>,
    outcome: Result<(Seq<Syntax>, int), Failure>,
) -> bool {
    match outcome {
        Ok((items, end)) => result matches Ok((nodes, next)) && syntax_of(nodes@) == items && next
            == end,
        Err(failure) => result matches Err(error) && error == report_of(s, failure),
    }
}

/// Whether `result` is what the grammar gives for the whole text `s`.
pub open spec fn reads_program_as(
    s: Seq<u8>,
    result: Result<Vec<AstNode>, ParseError>,
    outcome: Result<Seq<Syntax>, Failure>,
) -> bool {
    match outcome {
        Ok(forms) => result matches Ok(nodes) && syntax_of(nodes@) == forms,
        Err(failure) => result matches Err(error) && error == report_of(s, failure),
    }
}

/// Two readings of one text agree: both give forms that stand for the same
/// expressions, or both give the same report. What a reading gives depends
/// on the bytes of the text and on nothing else.
pub proof fn theorem_readings_agree(
    s: Seq<u8>,
    first: Result<Vec<AstNode>, ParseError>,
    second: Result<Vec<AstNode>, ParseError>,
)
    requires
        reads_program_as(s, first, program_of(s)),
        reads_program_as(s, second, program_of(s)),
    ensures
        match (first, second) {
            (Ok(a), Ok(b)) => syntax_of(a@) == syntax_of(b@),
            (Err(a), Err(b)) => a == b,
            _ => false,
        },
{
}

/// The set that holds `Expression` alone.
fn expression_only() -> (set: ExpectedSet)
    ensures
        set == ExpectedSet::expression(),
{
    ExpectedSet {
        expression: true,
        close_list: false,
        close_vector: false,
        string_character: false,
        string_delimiter: false,
        escaped_character: false,
    }
}

impl Grouping {
    /// The byte that ends a sequence of this kind.
    fn closing_byte(&self) -> (c: u8)
        ensures
            c == self.closer(),
    {
        match self {
            Grouping::List => CLOSE_PAREN,
            Grouping::Vector => CLOSE_BRACKET,
        }
    }

    /// The error for a text that ends inside a sequence of this kind.
    fn unterminated_kind(&self) -> (kind: ErrorKind)
        ensures
            kind == self.unterminated(),
    {
        match self {
            Grouping::List => ErrorKind::UnterminatedList,
            Grouping::Vector => ErrorKind::UnterminatedVector,
        }
    }

    /// What can stand inside a sequence of this kind.
    fn expected_inside(&self) -> (set: ExpectedSet)
        ensures
            set == self.expected(),
    {
        match self {
            Grouping::List => ExpectedSet {
                expression: true,
                close_list: true,
                close_vector: false,
                string_character: false,
                string_delimiter: false,
                escaped_character: false,
            },
            Grouping::Vector => ExpectedSet {
                expression: true,
                close_list: false,
                close_vector: true,
                string_character: false,
                string_delimiter: false,
                escaped_character: false,
            },
        }
    }
}

/// Reads the first expression at or after `start`: skips whitespace and
/// comments, then reads an atom, a list, a vector or a quoted form, as the
/// first byte tells. Gives the node and the offset after the expression, or
/// the first error.
///
/// A sequence inside a sequence is read by a call inside a call, so the depth
/// of nesting that can be read is what the stack of the thread allows.
pub fn parse_expr(source: &[u8], start: usize) -> (result: Result<(AstNode, usize), ParseError>)
    ensures
        reads_as(source@, result, expr_at(source@, start as int)),
        result matches Ok((node, next)) ==> node@.is_well_formed() && start < next
            <= source@.len(),
        result matches Err(error) ==> error.column <= source@.len(),
    decreases source@.len() - start, 0int,
{
    proof {
        lemma_expr_outcome(source@, start as int);
    }
    let len = source.len();
    let first = skip_whitespace_and_comments(source, start);
    if first >= len {
        return Err(ParseError::at(source, ErrorKind::UnexpectedEndOfInput, first, expression_only()));
    }
    proof {
        lemma_skip_trivia_bounds(source@, start as int, false);
    }
    match read_prefix(source, first) {
        Some((kind, after)) => {
            return parse_quoted(source, kind, after);
        },
        None => {},
    }
    match classify(source[first]) {
        Category::OpenList => match parse_items(source, first + 1, Grouping::List) {
            Ok((items, next)) => {
                let node = AstNode::List(items);
                proof {
                    lemma_view_of_items(node);
                }
                Ok((node, next))
            },
            Err(error) => Err(error),
        },
        Category::OpenVector => match parse_items(source, first + 1, Grouping::Vector) {
            Ok((items, next)) => {
                let node = AstNode::Vector(items);
                proof {
                    lemma_view_of_items(node);
                }
                Ok((node, next))
            },
            Err(error) => Err(error),
        },
        Category::CloseList | Category::CloseVector => Err(
            ParseError::at(
                source,
                ErrorKind::UnexpectedClosingDelimiter,
                first,
                expression_only(),
            ),
        ),
        _ => {
            proof {
                lemma_constituent_end(source@, first as int);
                lemma_string_body_end(source@, first + 1, Seq::empty());
            }
            match read_atom(source, first) {
                Ok((atom, next)) => Ok((AstNode::Atom(atom), next)),
                Err(error) => Err(error),
            }
        },
    }
}

/// Reads the expression that the shortcut `kind` applies to, from `after` on,
/// the offset after the prefix, and builds the list that the shortcut stands
/// for. Where the text ends or a closing delimiter stands before any
/// expression, the error is `DanglingQuotePrefix`.
pub fn parse_quoted(source: &[u8], kind: QuoteKind, after: usize) -> (result: Result<
    (AstNode, usize),
    ParseError,
>)
    ensures
        reads_as(source@, result, quoted_at(source@, kind, after as int)),
        result matches Ok((node, next)) ==> node@.is_well_formed() && after < next
            <= source@.len(),
        result matches Err(error) ==> error.column <= source@.len(),
    decreases source@.len() - after, 2int,
{
    proof {
        lemma_quoted_outcome(source@, kind, after as int);
    }
    let len = source.len();
    let first = skip_whitespace_and_comments(source, after);
    if first >= len || source[first] == CLOSE_PAREN || source[first] == CLOSE_BRACKET {
        return Err(ParseError::at(source, ErrorKind::DanglingQuotePrefix, first, expression_only()));
    }
    match parse_expr(source, first) {
        Ok((inner, next)) => Ok((kind.expand(inner), next)),
        Err(error) => Err(error),
    }
}

/// Reads the items of a sequence from `start` on, the offset after its opening
/// delimiter, up to the closing delimiter of `grouping`. Gives the items in
/// the order of the text and the offset after the delimiter, or the first
/// error.
pub fn parse_items(source: &[u8], start: usize, grouping: Grouping) -> (result: Result<
    (Vec<AstNode>, usize),
    ParseError,
>)
    ensures
        reads_items_as(source@, result, items_at(source@, start as int, grouping, Seq::empty())),
        result matches Ok((nodes, next)) ==> all_well_formed(syntax_of(nodes@)) && start < next
            <= source@.len(),
        result matches Err(error) ==> error.column <= source@.len(),
    decreases source@.len() - start, 1int,
{
    let len = source.len();
    let closer = grouping.closing_byte();
    let mut items: Vec<AstNode> = Vec::new();
    let mut pos: usize = start;
    assert(syntax_of(items@) =~= Seq::<Syntax>::empty());
    loop
        invariant
            len == source@.len(),
            closer == grouping.closer(),
            start <= pos,
            pos <= len || pos == start,
            items_at(source@, start as int, grouping, Seq::empty()) == items_at(
                source@,
                pos as int,
                grouping,
                syntax_of(items@),
            ),
        decreases len - pos,
    {
        let first = skip_whitespace_and_comments(source, pos);
        if first >= len {
            return Err(
                ParseError::at(source, grouping.unterminated_kind(), first, grouping.expected_inside()),
            );
        }
        let c = source[first];
        if c == closer {
            proof {
                lemma_items_outcome(source@, start as int, grouping, Seq::empty());
            }
            return Ok((items, first + 1));
        }
        if c == CLOSE_PAREN || c == CLOSE_BRACKET {
            return Err(
                ParseError::at(
                    source,
                    ErrorKind::MismatchedDelimiter,
                    first,
                    grouping.expected_inside(),
                ),
            );
        }
        match parse_expr(source, first) {
            Ok((node, next)) => {
                proof {
                    assert(syntax_of(items@.push(node)) =~= syntax_of(items@).push(node@));
                }
                items.push(node);
                pos = next;
            },
            Err(error) => {
                return Err(error);
            },
        }
    }
}

/// Reads a whole text: its top-level expressions up to the end, in the order
/// of the text, or the first error.
pub fn parse_bytes(source: &[u8]) -> (result: Result<Vec<AstNode>, ParseError>)
    ensures
        reads_program_as(source@, result, program_of(source@)),
        result matches Ok(nodes) ==> all_well_formed(syntax_of(nodes@)),
        result matches Err(error) ==> error.column <= source@.len(),
{
    let len = source.len();
    let mut forms: Vec<AstNode> = Vec::new();
    let mut pos: usize = 0;
    assert(syntax_of(forms@) =~= Seq::<Syntax>::empty());
    loop
        invariant
            len == source@.len(),
            pos <= len,
            program_of(source@) == forms_at(source@, pos as int, syntax_of(forms@)),
        decreases len - pos,
    {
        let first = skip_whitespace_and_comments(source, pos);
        if first >= len {
            proof {
                theorem_program_outcome(source@);
            }
            return Ok(forms);
        }
        match parse_expr(source, first) {
            Ok((node, next)) => {
                proof {
                    assert(syntax_of(forms@.push(node)) =~= syntax_of(forms@).push(node@));
                }
                forms.push(node);
                pos = next;
            },
            Err(error) => {
                return Err(error);
            },
        }
    }
}

/// Reads a program. `_filename` names the text for the caller's own messages
/// and has no part in the reading.
pub fn parse_program(source: &str, _filename: &str) -> (result: Result<Vec<AstNode>, ParseError>)
    ensures
        reads_program_as(source.spec_bytes(), result, program_of(source.spec_bytes())),
        result matches Ok(nodes) ==> all_well_formed(syntax_of(nodes@)),
        result matches Err(error) ==> error.column <= source.spec_bytes().len(),
{
    parse_bytes(source.as_bytes())
}

} // verus!
