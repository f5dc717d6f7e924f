//! What every reading comes to: a tree that is well formed and ends inside
//! the text, or an error that the text shows at the place that is reported.

use vstd::prelude::*;
use crate::ast::AtomValue;
use crate::ast::Syntax;
use crate::ast::all_well_formed;
use crate::ast::atom_is_well_formed;
use crate::ast::is_symbol_name;
use crate::atom::atom_of;
use crate::atom::constituent_end;
use crate::atom::false_word;
use crate::atom::lemma_constituent_end;
use crate::atom::lemma_string_body_end;
use crate::atom::string_body;
use crate::atom::unescape;
use crate::chars::BACKSLASH;
use crate::chars::CLOSE_BRACKET;
use crate::chars::CLOSE_PAREN;
use crate::chars::Category;
use crate::chars::DOUBLE_QUOTE;
use crate::chars::category_of;
use crate::chars::is_closing;
use crate::chars::is_constituent;
use crate::chars::is_digit;
use crate::chars::lemma_skip_trivia_bounds;
use crate::chars::lemma_skip_trivia_start;
use crate::chars::skip_trivia;
use crate::error::ErrorKind;
use crate::error::ExpectedSet;
use crate::error::Failure;
use crate::grammar::Grouping;
use crate::grammar::expr_at;
use crate::grammar::forms_at;
use crate::grammar::items_at;
use crate::grammar::program_of;
use crate::grammar::quoted_at;
use crate::number::numeric_end;
use crate::quote::QuoteKind;
use crate::quote::prefix_at;

verus! {

/// Whether `failure` is an error that the text `s` shows: it lies inside the
/// text or at its end, it names what could have stood there, and the byte
/// there, or the end of the text, is what its kind says.
pub open spec fn failure_is_shown(s: Seq<u8>, failure: Failure) -> bool {
    &&& 0 <= failure.offset <= s.len()
    &&& match failure.kind {
        ErrorKind::UnterminatedString => failure.offset == s.len() && (failure.expected
            == ExpectedSet::string_rest() || failure.expected == ExpectedSet::escape()),
        ErrorKind::UnterminatedList => failure.offset == s.len() && failure.expected
            == ExpectedSet::list_item(),
        ErrorKind::UnterminatedVector => failure.offset == s.len() && failure.expected
            == ExpectedSet::vector_item(),
        ErrorKind::MismatchedDelimiter => failure.offset < s.len() && (s[failure.offset]
            == CLOSE_BRACKET && failure.expected == ExpectedSet::list_item() || s[failure.offset]
            == CLOSE_PAREN && failure.expected == ExpectedSet::vector_item()),
        ErrorKind::UnexpectedClosingDelimiter => failure.offset < s.len() && is_closing(
            s[failure.offset],
        ) && failure.expected == ExpectedSet::expression(),
        ErrorKind::DanglingQuotePrefix => (failure.offset == s.len() || is_closing(
            s[failure.offset],
        )) && failure.expected == ExpectedSet::expression(),
        ErrorKind::UnexpectedEndOfInput => failure.offset == s.len() && failure.expected
            == ExpectedSet::expression(),
    }
}

/// The four names that head a quoted form are names of symbols.
pub proof fn lemma_quote_names(kind: QuoteKind)
    ensures
        is_symbol_name(kind.name()),
{
    let name = kind.name();
    assert(!is_digit(name[0]));
    assert(numeric_end(name) is None);
    assert(name.len() >= 5);
    assert(name[1] != false_word()[1]);
}

/// What a run of constituent bytes stands for is well formed.
pub proof fn lemma_atom_of_is_well_formed(lexeme: Seq<u8>)
    requires
        lexeme.len() > 0,
        forall|i: int| 0 <= i < lexeme.len() ==> is_constituent(#[trigger] lexeme[i]),
    ensures
        atom_is_well_formed(atom_of(lexeme)),
{
}

/// An expression that is read is well formed and ends after its first byte,
/// inside the text; an error that is read is one that the text shows.
pub proof fn lemma_expr_outcome(s: Seq<u8>, pos: int)
    ensures
        match expr_at(s, pos) {
            Ok((x, end)) => x.is_well_formed() && 0 <= pos <= skip_trivia(s, pos) < end <= s.len(),
            Err(failure) => failure_is_shown(s, failure),
        },
    decreases s.len() - pos, 0int,
{
    lemma_skip_trivia_start(s, pos);
    let start = skip_trivia(s, pos);
    if start < s.len() {
        lemma_skip_trivia_bounds(s, pos, false);
        match prefix_at(s, start) {
            Some((kind, after)) => {
                lemma_quoted_outcome(s, kind, after);
            },
            None => {
                match category_of(s[start]) {
                    Category::OpenList => {
                        lemma_items_outcome(s, start + 1, Grouping::List, Seq::empty());
                    },
                    Category::OpenVector => {
                        lemma_items_outcome(s, start + 1, Grouping::Vector, Seq::empty());
                    },
                    Category::CloseList | Category::CloseVector => {},
                    _ => {
                        if s[start] == DOUBLE_QUOTE {
                            lemma_string_body_end(s, start + 1, Seq::empty());
                            lemma_string_failure(s, start + 1, Seq::empty());
                        } else {
                            lemma_constituent_end(s, start);
                            let end = constituent_end(s, start);
                            let lexeme = s.subrange(start, end);
                            assert forall|i: int| 0 <= i < lexeme.len() implies is_constituent(
                                #[trigger] lexeme[i],
                            ) by {
                                assert(lexeme[i] == s[start + i]);
                            }
                            lemma_atom_of_is_well_formed(lexeme);
                        }
                    },
                }
            },
        }
    }
}

/// A string literal that is not read to its end fails at the end of the text.
pub proof fn lemma_string_failure(s: Seq<u8>, pos: int, content: Seq<u8>)
    requires
        0 <= pos <= s.len(),
    ensures
        string_body(s, pos, content) matches Err(failure) ==> failure_is_shown(s, failure),
    decreases s.len() - pos,
{
    if pos < s.len() && s[pos] != DOUBLE_QUOTE {
        if s[pos] == BACKSLASH {
            if pos + 1 < s.len() {
                lemma_string_failure(s, pos + 2, content.push(unescape(s[pos + 1])));
            }
        } else {
            lemma_string_failure(s, pos + 1, content.push(s[pos]));
        }
    }
}

/// A quoted form that is read is well formed and ends after its prefix.
pub proof fn lemma_quoted_outcome(s: Seq<u8>, kind: QuoteKind, after: int)
    ensures
        match quoted_at(s, kind, after) {
            Ok((x, end)) => x.is_well_formed() && 0 <= after < end <= s.len(),
            Err(failure) => failure_is_shown(s, failure),
        },
    decreases s.len() - after, 2int,
{
    lemma_skip_trivia_start(s, after);
    let start = skip_trivia(s, after);
    if start < s.len() && !is_closing(s[start]) {
        lemma_expr_outcome(s, start);
        match expr_at(s, start) {
            Ok((inner, end)) => {
                lemma_quote_names(kind);
                let items = seq![Syntax::Atom(AtomValue::Symbol(kind.name())), inner];
                assert(kind.applied_to(inner) == Syntax::List(items));
                assert forall|i: int| 0 <= i < items.len() implies (
                #[trigger] items[i]).is_well_formed() by {
                    if i == 0 {
                        assert(atom_is_well_formed(AtomValue::Symbol(kind.name())));
                    }
                }
            },
            Err(_) => {},
        }
    }
}

/// The items that are read after well-formed items are well formed, and the
/// sequence ends after where its reading started.
pub proof fn lemma_items_outcome(
    s: Seq<u8>,
    pos: int,
    grouping: Grouping,
    before: Seq<Syntax>,
)
    requires
        all_well_formed(before),
    ensures
        match items_at(s, pos, grouping, before) {
            Ok((items, end)) => all_well_formed(items) && 0 <= pos < end <= s.len(),
            Err(failure) => failure_is_shown(s, failure),
        },
    decreases s.len() - pos, 1int,
{
    lemma_skip_trivia_start(s, pos);
    let start = skip_trivia(s, pos);
    if start < s.len() && !is_closing(s[start]) {
        lemma_expr_outcome(s, start);
        match expr_at(s, start) {
            Ok((item, end)) => {
                lemma_items_outcome(s, end, grouping, before.push(item));
            },
            Err(_) => {},
        }
    }
}

/// The forms that are read after well-formed forms are well formed.
pub proof fn lemma_forms_outcome(s: Seq<u8>, pos: int, before: Seq<Syntax>)
    requires
        all_well_formed(before),
    ensures
        match forms_at(s, pos, before) {
            Ok(forms) => all_well_formed(forms),
            Err(failure) => failure_is_shown(s, failure),
        },
    decreases s.len() - pos,
{
    lemma_skip_trivia_start(s, pos);
    let start = skip_trivia(s, pos);
    if start < s.len() {
        lemma_expr_outcome(s, start);
        match expr_at(s, start) {
            Ok((form, end)) => {
                lemma_forms_outcome(s, end, before.push(form));
            },
            Err(_) => {},
        }
    }
}

/// Whatever a text is read as, its forms are well formed, and its error, if
/// it has one, is one that the text shows.
pub proof fn theorem_program_outcome(s: Seq<u8>)
    ensures
        match program_of(s) {
            Ok(forms) => all_well_formed(forms),
            Err(failure) => failure_is_shown(s, failure),
        },
{
    lemma_forms_outcome(s, 0, Seq::empty());
}

} // verus!
