//! Character classes of the grammar.

use vstd::prelude::*;

verus! {

/// Blank.
pub const SPACE: u8 = 32;

/// Horizontal tab.
pub const TAB: u8 = 9;

/// Line feed: ends a line and a comment.
pub const NEWLINE: u8 = 10;

/// Carriage return.
pub const CARRIAGE_RETURN: u8 = 13;

/// `(`
pub const OPEN_PAREN: u8 = 40;

/// `)`
pub const CLOSE_PAREN: u8 = 41;

/// `[`
pub const OPEN_BRACKET: u8 = 91;

/// `]`
pub const CLOSE_BRACKET: u8 = 93;

/// `"`: starts and ends a string literal.
pub const DOUBLE_QUOTE: u8 = 34;

/// `\`: inside a string literal, takes the next byte out of its usual meaning.
pub const BACKSLASH: u8 = 92;

/// `;`
pub const SEMICOLON: u8 = 59;

/// `'`
pub const APOSTROPHE: u8 = 39;

/// The backquote.
pub const BACKQUOTE: u8 = 96;

/// `,`
pub const COMMA: u8 = 44;

/// `@`
pub const AT_SIGN: u8 = 64;

/// `0`
pub const DIGIT_ZERO: u8 = 48;

/// `9`
pub const DIGIT_NINE: u8 = 57;

/// What a byte means to the reader. Every byte has exactly one category.
#[derive(Clone, Copy, Debug, PartialEq, Eq, Structural)]
pub enum Category {
    /// Blank, tab, line feed, carriage return: separates tokens.
    Whitespace,
    /// `(`
    OpenList,
    /// `)`
    CloseList,
    /// `[`
    OpenVector,
    /// `]`
    CloseVector,
    /// `"`
    StringDelimiter,
    /// `;`, which starts a comment that runs to the end of the line.
    CommentStart,
    /// `'`, a backquote or `,`: the first byte of a quoting shortcut.
    QuotePrefixChar,
    /// Any other byte: part of a symbol, a number or a reserved word.
    SymbolConstituent,
}

/// The category of each byte.
pub open spec fn category_of(c: u8) -> Category {
    if c == SPACE || c == TAB || c == NEWLINE || c == CARRIAGE_RETURN {
        Category::Whitespace
    } else if c == OPEN_PAREN {
        Category::OpenList
    } else if c == CLOSE_PAREN {
        Category::CloseList
    } else if c == OPEN_BRACKET {
        Category::OpenVector
    } else if c == CLOSE_BRACKET {
        Category::CloseVector
    } else if c == DOUBLE_QUOTE {
        Category::StringDelimiter
    } else if c == SEMICOLON {
        Category::CommentStart
    } else if c == APOSTROPHE || c == BACKQUOTE || c == COMMA {
        Category::QuotePrefixChar
    } else {
        Category::SymbolConstituent
    }
}

/// Whether `c` separates tokens without being one.
pub open spec fn is_whitespace(c: u8) -> bool {
    category_of(c) == Category::Whitespace
}

/// Whether `c` can stand inside a symbol, a number or a reserved word.
pub open spec fn is_constituent(c: u8) -> bool {
    category_of(c) == Category::SymbolConstituent
}

/// Whether `c` closes a list or a vector.
pub open spec fn is_closing(c: u8) -> bool {
    c == CLOSE_PAREN || c == CLOSE_BRACKET
}

/// Whether `c` is a decimal digit.
pub open spec fn is_digit(c: u8) -> bool {
    DIGIT_ZERO <= c <= DIGIT_NINE
}

/// Whether the byte `c` stands at `pos` in `s`.
pub open spec fn byte_at(s: Seq<u8>, pos: int, c: u8) -> bool {
    0 <= pos < s.len() && s[pos] == c
}

/// Classifies one byte.
pub fn classify(c: u8) -> (category: Category)
    ensures
        category == category_of(c),
{
    if c == SPACE || c == TAB || c == NEWLINE || c == CARRIAGE_RETURN {
        Category::Whitespace
    } else if c == OPEN_PAREN {
        Category::OpenList
    } else if c == CLOSE_PAREN {
        Category::CloseList
    } else if c == OPEN_BRACKET {
        Category::OpenVector
    } else if c == CLOSE_BRACKET {
        Category::CloseVector
    } else if c == DOUBLE_QUOTE {
        Category::StringDelimiter
    } else if c == SEMICOLON {
        Category::CommentStart
    } else if c == APOSTROPHE || c == BACKQUOTE || c == COMMA {
        Category::QuotePrefixChar
    } else {
        Category::SymbolConstituent
    }
}

/// The first offset at or after `pos` that holds neither whitespace nor part
/// of a comment, or the length of `s` where there is none. With `in_comment`
/// the byte at `pos` lies inside a comment, which ends with the line.
pub open spec fn skip_trivia_from(s: Seq<u8>, pos: int, in_comment: bool) -> int
    decreases s.len() - pos,
{
    if pos < 0 || pos >= s.len() {
        s.len() as int
    } else if in_comment {
        skip_trivia_from(s, pos + 1, s[pos] != NEWLINE)
    } else if is_whitespace(s[pos]) {
        skip_trivia_from(s, pos + 1, false)
    } else if category_of(s[pos]) == Category::CommentStart {
        skip_trivia_from(s, pos + 1, true)
    } else {
        pos
    }
}

/// Where the next token at or after `pos` starts, or the length of `s` where
/// only whitespace and comments are left.
pub open spec fn skip_trivia(s: Seq<u8>, pos: int) -> int {
    skip_trivia_from(s, pos, false)
}

/// The result of `skip_trivia_from` lies between `pos` and the end, and is the
/// start of a token where it lies before the end.
pub proof fn lemma_skip_trivia_bounds(s: Seq<u8>, pos: int, in_comment: bool)
    requires
        0 <= pos <= s.len(),
    ensures
        pos <= skip_trivia_from(s, pos, in_comment) <= s.len(),
        skip_trivia_from(s, pos, in_comment) < s.len() ==> {
            let c = s[skip_trivia_from(s, pos, in_comment)];
            !is_whitespace(c) && category_of(c) != Category::CommentStart
        },
    decreases s.len() - pos,
{
    if pos < s.len() {
        if in_comment {
            lemma_skip_trivia_bounds(s, pos + 1, s[pos] != NEWLINE);
        } else if is_whitespace(s[pos]) {
            lemma_skip_trivia_bounds(s, pos + 1, false);
        } else if category_of(s[pos]) == Category::CommentStart {
            lemma_skip_trivia_bounds(s, pos + 1, true);
        }
    }
}

/// A token that is found before the end of the text starts at or after the
/// offset from which it was looked for.
pub proof fn lemma_skip_trivia_start(s: Seq<u8>, pos: int)
    ensures
        skip_trivia(s, pos) <= s.len(),
        skip_trivia(s, pos) < s.len() ==> 0 <= pos <= skip_trivia(s, pos),
{
    if 0 <= pos <= s.len() {
        lemma_skip_trivia_bounds(s, pos, false);
    }
}

/// Skips whitespace and comments from `start` on.
pub fn skip_whitespace_and_comments(source: &[u8], start: usize) -> (next: usize)
    ensures
        next == skip_trivia(source@, start as int),
        start <= source@.len() ==> start <= next <= source@.len(),
{
    let len = source.len();
    if start >= len {
        return len;
    }
    let mut pos: usize = start;
    let mut in_comment: bool = false;
    while pos < len
        invariant
            len == source@.len(),
            start <= pos <= len,
            skip_trivia(source@, start as int) == skip_trivia_from(source@, pos as int, in_comment),
        ensures
            start <= pos <= len,
            skip_trivia(source@, start as int) == pos,
        decreases len - pos,
    {
        let c = source[pos];
        if in_comment {
            in_comment = c != NEWLINE;
        } else if c == SPACE || c == TAB || c == NEWLINE || c == CARRIAGE_RETURN {
        } else if c == SEMICOLON {
            in_comment = true;
        } else {
            break;
        }
        pos = pos + 1;
    }
    pos
}

} // verus!
