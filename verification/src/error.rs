//! What the reader reports when the text is not well formed.

use vstd::prelude::*;
use crate::position::position_of;
use crate::position::position_at;

verus! {

/// Why the reading stopped.
#[derive(Clone, Copy, Debug, PartialEq, Eq, Structural)]
pub enum ErrorKind {
    /// The text ended inside a string literal.
    UnterminatedString,
    /// The text ended before the `)` of a list.
    UnterminatedList,
    /// The text ended before the `]` of a vector.
    UnterminatedVector,
    /// A `]` stands where a list ends, or a `)` where a vector ends.
    MismatchedDelimiter,
    /// A `)` or `]` stands where an expression starts and nothing is open.
    UnexpectedClosingDelimiter,
    /// A quoting shortcut is followed by the end of the text or by a closing
    /// delimiter instead of an expression.
    DanglingQuotePrefix,
    /// An expression was asked for and only whitespace and comments are left.
    UnexpectedEndOfInput,
}

/// A production of the grammar that can be named in a report.
#[derive(Clone, Copy, Debug, PartialEq, Eq, Structural)]
pub enum Production {
    /// Any expression: an atom, a list, a vector or a quoted form.
    Expression,
    /// The `)` that ends a list.
    CloseList,
    /// The `]` that ends a vector.
    CloseVector,
    /// One more byte of a string literal.
    StringCharacter,
    /// The `"` that ends a string literal.
    StringDelimiter,
    /// The byte that a backslash in a string literal applies to.
    EscapedCharacter,
}

impl Production {
    /// The name of the production as a person reads it.
    pub open spec fn label(self) -> Seq<char> {
        match self {
            Production::Expression => "expression"@,
            Production::CloseList => ")"@,
            Production::CloseVector => "]"@,
            Production::StringCharacter => "string character"@,
            Production::StringDelimiter => "\""@,
            Production::EscapedCharacter => "escaped character"@,
        }
    }

    /// The name of the production as a person reads it.
    pub fn name(&self) -> (name: &'static str)
        ensures
            name@ == self.label(),
    {
        match self {
            Production::Expression => "expression",
            Production::CloseList => ")",
            Production::CloseVector => "]",
            Production::StringCharacter => "string character",
            Production::StringDelimiter => "\"",
            Production::EscapedCharacter => "escaped character",
        }
    }
}

/// The set of productions that were legal at the place of an error.
#[derive(Clone, Copy, Debug, PartialEq, Eq, Structural)]
pub struct ExpectedSet {
    /// Whether an expression could start there.
    pub expression: bool,
    /// Whether a `)` could stand there.
    pub close_list: bool,
    /// Whether a `]` could stand there.
    pub close_vector: bool,
    /// Whether a string literal could go on there.
    pub string_character: bool,
    /// Whether a string literal could end there.
    pub string_delimiter: bool,
    /// Whether the byte after a backslash was due there.
    pub escaped_character: bool,
}

impl ExpectedSet {
    /// The set that holds no production.
    pub open spec fn empty() -> ExpectedSet {
        ExpectedSet {
            expression: false,
            close_list: false,
            close_vector: false,
            string_character: false,
            string_delimiter: false,
            escaped_character: false,
        }
    }

    /// Where only an expression can stand.
    pub open spec fn expression() -> ExpectedSet {
        ExpectedSet { expression: true, ..ExpectedSet::empty() }
    }

    /// Inside a list: an expression or `)`.
    pub open spec fn list_item() -> ExpectedSet {
        ExpectedSet { expression: true, close_list: true, ..ExpectedSet::empty() }
    }

    /// Inside a vector: an expression or `]`.
    pub open spec fn vector_item() -> ExpectedSet {
        ExpectedSet { expression: true, close_vector: true, ..ExpectedSet::empty() }
    }

    /// Inside a string literal: one more byte of it or the closing `"`.
    pub open spec fn string_rest() -> ExpectedSet {
        ExpectedSet { string_character: true, string_delimiter: true, ..ExpectedSet::empty() }
    }

    /// After a backslash in a string literal: the byte it applies to.
    pub open spec fn escape() -> ExpectedSet {
        ExpectedSet { escaped_character: true, ..ExpectedSet::empty() }
    }

    /// Whether `production` belongs to the set.
    pub open spec fn has(self, production: Production) -> bool {
        match production {
            Production::Expression => self.expression,
            Production::CloseList => self.close_list,
            Production::CloseVector => self.close_vector,
            Production::StringCharacter => self.string_character,
            Production::StringDelimiter => self.string_delimiter,
            Production::EscapedCharacter => self.escaped_character,
        }
    }

    /// The members of the set, in the order in which `Production` lists them.
    pub open spec fn members(self) -> Seq<Production> {
        let none = Seq::<Production>::empty();
        (if self.expression { seq![Production::Expression] } else { none })
            + (if self.close_list { seq![Production::CloseList] } else { none })
            + (if self.close_vector { seq![Production::CloseVector] } else { none })
            + (if self.string_character { seq![Production::StringCharacter] } else { none })
            + (if self.string_delimiter { seq![Production::StringDelimiter] } else { none })
            + (if self.escaped_character { seq![Production::EscapedCharacter] } else { none })
    }

    /// Whether `production` belongs to the set.
    pub fn contains(&self, production: Production) -> (found: bool)
        ensures
            found == self.has(production),
    {
        match production {
            Production::Expression => self.expression,
            Production::CloseList => self.close_list,
            Production::CloseVector => self.close_vector,
            Production::StringCharacter => self.string_character,
            Production::StringDelimiter => self.string_delimiter,
            Production::EscapedCharacter => self.escaped_character,
        }
    }

    /// The members of the set, in the order in which `Production` lists them.
    pub fn productions(&self) -> (list: Vec<Production>)
        ensures
            list@ == self.members(),
    {
        let mut list: Vec<Production> = Vec::new();
        if self.expression {
            list.push(Production::Expression);
        }
        if self.close_list {
            list.push(Production::CloseList);
        }
        if self.close_vector {
            list.push(Production::CloseVector);
        }
        if self.string_character {
            list.push(Production::StringCharacter);
        }
        if self.string_delimiter {
            list.push(Production::StringDelimiter);
        }
        if self.escaped_character {
            list.push(Production::EscapedCharacter);
        }
        assert(list@ =~= self.members());
        list
    }
}

/// An error as the grammar defines it: its kind, the byte offset at which the
/// reading stopped, and what could have stood there.
pub struct Failure {
    pub kind: ErrorKind,
    pub offset: int,
    pub expected: ExpectedSet,
}

/// The first syntax error of a text.
#[derive(Clone, Copy, Debug, PartialEq, Eq, Structural)]
pub struct ParseError {
    /// Why the reading stopped.
    pub kind: ErrorKind,
    /// The line on which it stopped, counted from 1.
    pub line: usize,
    /// The byte offset into the whole text at which it stopped. This is not
    /// the distance from the start of the line.
    pub column: usize,
    /// The productions that were legal there.
    pub expected: ExpectedSet,
}

/// The report for `failure` in the text `s`.
pub open spec fn report_of(s: Seq<u8>, failure: Failure) -> ParseError {
    ParseError {
        kind: failure.kind,
        line: position_of(s, failure.offset).line,
        column: failure.offset as usize,
        expected: failure.expected,
    }
}

impl ParseError {
    /// Builds the report for an error of `kind` at `offset` in `source`.
    pub fn at(source: &[u8], kind: ErrorKind, offset: usize, expected: ExpectedSet) -> (error:
        ParseError)
        ensures
            error == report_of(source@, Failure { kind, offset: offset as int, expected }),
    {
        let p = position_at(source, offset);
        ParseError { kind, line: p.line, column: offset, expected }
    }
}

} // verus!
