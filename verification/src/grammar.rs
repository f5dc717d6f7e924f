//! The grammar, as mathematical functions on the bytes of the text.
//!
//! An expression is an atom, a list `( ... )`, a vector `[ ... ]` or a quoting
//! shortcut before an expression. Whitespace and comments may stand before
//! every expression and before every closing delimiter. The first byte of an
//! expression tells which of these it is, so nothing is ever read twice.

use vstd::prelude::*;
use crate::ast::Syntax;
use crate::atom::atom_at;
use crate::chars::category_of;
use crate::chars::is_closing;
use crate::chars::lemma_skip_trivia_start;
use crate::chars::skip_trivia;
use crate::chars::Category;
use crate::chars::CLOSE_BRACKET;
use crate::chars::CLOSE_PAREN;
use crate::error::ErrorKind;
use crate::error::ExpectedSet;
use crate::error::Failure;
use crate::quote::prefix_at;
use crate::quote::QuoteKind;

verus! {

/// The two kinds of sequence.
#[derive(Clone, Copy, Debug, PartialEq, Eq, Structural)]
pub enum Grouping {
    /// `( ... )`
    List,
    /// `[ ... ]`
    Vector,
}

impl Grouping {
    /// The byte that ends a sequence of this kind.
    pub open spec fn closer(self) -> u8 {
        match self {
            Grouping::List => CLOSE_PAREN,
            Grouping::Vector => CLOSE_BRACKET,
        }
    }

    /// The error for a text that ends inside a sequence of this kind.
    pub open spec fn unterminated(self) -> ErrorKind {
        match self {
            Grouping::List => ErrorKind::UnterminatedList,
            Grouping::Vector => ErrorKind::UnterminatedVector,
        }
    }

    /// What can stand inside a sequence of this kind: an expression or its
    /// closing delimiter.
    pub open spec fn expected(self) -> ExpectedSet {
        match self {
            Grouping::List => ExpectedSet::list_item(),
            Grouping::Vector => ExpectedSet::vector_item(),
        }
    }
}

/// Stands in the definitions below where an expression would end at or before
/// its own start, or beyond the text. That never happens: an expression that
/// is read ends after its first byte and inside the text, and no outcome of
/// `expr_at` is this failure (`lemma_expr_outcome`). The test for it is what
/// makes each definition go on with less of the text than it was given.
pub open spec fn no_progress(pos: int) -> Failure {
    Failure { kind: ErrorKind::UnexpectedEndOfInput, offset: pos, expected: ExpectedSet::empty() }
}

/// Reads the first expression at or after `pos`, with the whitespace and
/// comments before it. Gives what it stands for and the offset after it, or
/// the first error; that only whitespace and comments are left is an error.
pub open spec fn expr_at(s: Seq<u8>, pos: int) -> Result<(Syntax, int), Failure>
    decreases s.len() - pos, 0int,
    via expr_at_decreases
{
    let start = skip_trivia(s, pos);
    if start >= s.len() {
        Err(
            Failure {
                kind: ErrorKind::UnexpectedEndOfInput,
                offset: start,
                expected: ExpectedSet::expression(),
            },
        )
    } else {
        match prefix_at(s, start) {
            Some((kind, after)) => quoted_at(s, kind, after),
            None => match category_of(s[start]) {
                Category::OpenList => match items_at(s, start + 1, Grouping::List, Seq::empty()) {
                    Ok((items, end)) => Ok((Syntax::List(items), end)),
                    Err(failure) => Err(failure),
                },
                Category::OpenVector => match items_at(
                    s,
                    start + 1,
                    Grouping::Vector,
                    Seq::empty(),
                ) {
                    Ok((items, end)) => Ok((Syntax::Vector(items), end)),
                    Err(failure) => Err(failure),
                },
                Category::CloseList | Category::CloseVector => Err(
                    Failure {
                        kind: ErrorKind::UnexpectedClosingDelimiter,
                        offset: start,
                        expected: ExpectedSet::expression(),
                    },
                ),
                _ => match atom_at(s, start) {
                    Ok((atom, end)) => Ok((Syntax::Atom(atom), end)),
                    Err(failure) => Err(failure),
                },
            },
        }
    }
}

#[via_fn]
proof fn expr_at_decreases(s: Seq<u8>, pos: int) {
    lemma_skip_trivia_start(s, pos);
}

/// Reads the expression that the shortcut `kind` applies to, from `after` on,
/// the offset after the prefix. Gives the list that the shortcut stands for and
/// the offset after the expression. Where the text ends or a closing delimiter
/// stands before any expression, the prefix dangles.
pub open spec fn quoted_at(s: Seq<u8>, kind: QuoteKind, after: int) -> Result<
    (Syntax, int),
    Failure,
>
    decreases s.len() - after, 2int,
    via quoted_at_decreases
{
    let start = skip_trivia(s, after);
    if start >= s.len() || is_closing(s[start]) {
        Err(
            Failure {
                kind: ErrorKind::DanglingQuotePrefix,
                offset: start,
                expected: ExpectedSet::expression(),
            },
        )
    } else {
        match expr_at(s, start) {
            Ok((inner, end)) => Ok((kind.applied_to(inner), end)),
            Err(failure) => Err(failure),
        }
    }
}

/// Reads the rest of a sequence from `pos` on, after `items` have been read of
/// it: expressions up to the closing delimiter of `grouping`. Gives all the
/// items and the offset after the delimiter, or the first error.
pub open spec fn items_at(s: Seq<u8>, pos: int, grouping: Grouping, items: Seq<Syntax>) -> Result<
    (Seq<Syntax>, int),
    Failure,
>
    decreases s.len() - pos, 1int,
    via items_at_decreases
{
    let start = skip_trivia(s, pos);
    if start >= s.len() {
        Err(
            Failure {
                kind: grouping.unterminated(),
                offset: s.len() as int,
                expected: grouping.expected(),
            },
        )
    } else if s[start] == grouping.closer() {
        Ok((items, start + 1))
    } else if is_closing(s[start]) {
        Err(
            Failure {
                kind: ErrorKind::MismatchedDelimiter,
                offset: start,
                expected: grouping.expected(),
            },
        )
    } else {
        match expr_at(s, start) {
            Ok((item, end)) => if start < end <= s.len() {
                items_at(s, end, grouping, items.push(item))
            } else {
                Err(no_progress(start))
            },
            Err(failure) => Err(failure),
        }
    }
}

#[via_fn]
proof fn quoted_at_decreases(s: Seq<u8>, kind: QuoteKind, after: int) {
    lemma_skip_trivia_start(s, after);
}

#[via_fn]
proof fn items_at_decreases(s: Seq<u8>, pos: int, grouping: Grouping, items: Seq<Syntax>) {
    lemma_skip_trivia_start(s, pos);
}

/// Reads the rest of a program from `pos` on, after `forms` have been read of
/// it: expressions up to the end of the text. Gives all the forms, or the
/// first error.
pub open spec fn forms_at(s: Seq<u8>, pos: int, forms: Seq<Syntax>) -> Result<Seq<Syntax>, Failure>
    decreases s.len() - pos,
    via forms_at_decreases
{
    let start = skip_trivia(s, pos);
    if start >= s.len() {
        Ok(forms)
    } else {
        match expr_at(s, start) {
            Ok((form, end)) => if start < end <= s.len() {
                forms_at(s, end, forms.push(form))
            } else {
                Err(no_progress(start))
            },
            Err(failure) => Err(failure),
        }
    }
}

#[via_fn]
proof fn forms_at_decreases(s: Seq<u8>, pos: int, forms: Seq<Syntax>) {
    lemma_skip_trivia_start(s, pos);
}

/// What a whole text stands for: its top-level forms in the order of the
/// text, or its first error.
pub open spec fn program_of(s: Seq<u8>) -> Result<Seq<Syntax>, Failure> {
    forms_at(s, 0, Seq::empty())
}

} // verus!
