//! The canonical text of a tree.
//!
//! Every well-formed tree has one canonical text: atoms as the
//! reader accepts them, the items of a list or a vector one blank apart, a
//! quoted form as the list it stands for, and one top-level form per line.
//! Reading the canonical text gives the tree back.

use vstd::prelude::*;
use crate::ast::lemma_view_of_items;
use crate::ast::syntax_of;
use crate::ast::AstNode;
use crate::ast::Atom;
use crate::ast::AtomValue;
use crate::ast::Number;
use crate::ast::NumberValue;
use crate::ast::Syntax;
use crate::atom::false_word;
use crate::atom::nil_word;
use crate::atom::true_word;
use crate::atom::LOWER_N;
use crate::atom::LOWER_T;
use crate::chars::BACKSLASH;
use crate::chars::CLOSE_BRACKET;
use crate::chars::CLOSE_PAREN;
use crate::chars::DIGIT_ZERO;
use crate::chars::DOUBLE_QUOTE;
use crate::chars::NEWLINE;
use crate::chars::OPEN_BRACKET;
use crate::chars::OPEN_PAREN;
use crate::chars::SPACE;
use crate::chars::TAB;
use crate::number::MINUS;

verus! {

/// The decimal digits of `n`, without leading zeros.
pub open spec fn digits_of(n: nat) -> Seq<u8>
    decreases n,
{
    if n < 10 {
        seq![(DIGIT_ZERO + n) as u8]
    } else {
        digits_of(n / 10).push((DIGIT_ZERO + n % 10) as u8)
    }
}

/// The text of an integer: its digits, after a `-` where it is negative.
pub open spec fn integer_text(n: int) -> Seq<u8> {
    if n < 0 {
        seq![MINUS] + digits_of((-n) as nat)
    } else {
        digits_of(n as nat)
    }
}

/// How one byte of a string is written inside the literal: a backslash before
/// `"` and before a backslash, `\n` for a line feed, `\t` for a tab, and the
/// byte itself otherwise.
pub open spec fn escape_of(c: u8) -> Seq<u8> {
    if c == DOUBLE_QUOTE || c == BACKSLASH {
        seq![BACKSLASH, c]
    } else if c == NEWLINE {
        seq![BACKSLASH, LOWER_N]
    } else if c == TAB {
        seq![BACKSLASH, LOWER_T]
    } else {
        seq![c]
    }
}

/// The content of a string as it is written between the two `"`.
pub open spec fn escaped(content: Seq<u8>) -> Seq<u8>
    decreases content.len(),
{
    if content.len() == 0 {
        Seq::empty()
    } else {
        escape_of(content[0]) + escaped(content.drop_first())
    }
}

/// The canonical text of an atom.
pub open spec fn atom_text(atom: AtomValue) -> Seq<u8> {
    match atom {
        AtomValue::Symbol(name) => name,
        AtomValue::Number(NumberValue::Integer(n)) => integer_text(n),
        AtomValue::Number(NumberValue::Real(text)) => text,
        AtomValue::Str(content) => seq![DOUBLE_QUOTE] + escaped(content) + seq![DOUBLE_QUOTE],
        AtomValue::Bool(b) => if b {
            true_word()
        } else {
            false_word()
        },
        AtomValue::Nil => nil_word(),
    }
}

/// The canonical text of an expression.
pub open spec fn text_of(x: Syntax) -> Seq<u8>
    decreases x,
{
    match x {
        Syntax::Atom(atom) => atom_text(atom),
        Syntax::List(items) => seq![OPEN_PAREN] + items_text(items) + seq![CLOSE_PAREN],
        Syntax::Vector(items) => seq![OPEN_BRACKET] + items_text(items) + seq![CLOSE_BRACKET],
    }
}

/// The canonical text of the items of a sequence: one blank between two
/// items.
pub open spec fn items_text(items: Seq<Syntax>) -> Seq<u8>
    decreases items,
{
    if items.len() == 0 {
        Seq::empty()
    } else if items.len() == 1 {
        text_of(items[0])
    } else {
        text_of(items[0]) + seq![SPACE] + items_text(items.drop_first())
    }
}

/// The canonical text of a program: each form on a line of its own.
pub open spec fn program_text(forms: Seq<Syntax>) -> Seq<u8>
    decreases forms.len(),
{
    if forms.len() == 0 {
        Seq::empty()
    } else {
        text_of(forms[0]) + seq![NEWLINE] + program_text(forms.drop_first())
    }
}

/// Appends each byte of `bytes` to `out`.
fn write_bytes(bytes: &[u8], out: &mut Vec<u8>)
    ensures
        final(out)@ == old(out)@ + bytes@,
{
    let mut i: usize = 0;
    while i < bytes.len()
        invariant
            i <= bytes@.len(),
            out@ == old(out)@ + bytes@.take(i as int),
        decreases bytes@.len() - i,
    {
        out.push(bytes[i]);
        i = i + 1;
        assert(out@ =~= old(out)@ + bytes@.take(i as int));
    }
    assert(bytes@.take(bytes@.len() as int) =~= bytes@);
}

/// Appends the decimal digits of `n` to `out`.
fn write_digits(n: u64, out: &mut Vec<u8>)
    ensures
        final(out)@ == old(out)@ + digits_of(n as nat),
    decreases n,
{
    if n >= 10 {
        write_digits(n / 10, out);
    }
    let digit: u8 = (n % 10) as u8;
    out.push(DIGIT_ZERO + digit);
    assert(out@ =~= old(out)@ + digits_of(n as nat));
}

/// Appends the text of the integer `n` to `out`.
fn write_integer(n: i64, out: &mut Vec<u8>)
    ensures
        final(out)@ == old(out)@ + integer_text(n as int),
{
    if n < 0 {
        out.push(MINUS);
        let magnitude: u64 = (-(n as i128)) as u64;
        write_digits(magnitude, out);
        assert(out@ =~= old(out)@ + integer_text(n as int));
    } else {
        write_digits(n as u64, out);
    }
}

/// Appends the escaped content of a string to `out`.
fn write_escaped(content: &[u8], out: &mut Vec<u8>)
    ensures
        final(out)@ == old(out)@ + escaped(content@),
{
    let mut i: usize = 0;
    assert(content@.skip(0) =~= content@);
    while i < content.len()
        invariant
            i <= content@.len(),
            out@ + escaped(content@.skip(i as int)) == old(out)@ + escaped(content@),
        decreases content@.len() - i,
    {
        let c = content[i];
        let ghost before = out@;
        proof {
            assert(content@.skip(i as int).drop_first() =~= content@.skip(i + 1));
            assert(content@.skip(i as int)[0] == c);
        }
        if c == DOUBLE_QUOTE || c == BACKSLASH {
            out.push(BACKSLASH);
            out.push(c);
        } else if c == NEWLINE {
            out.push(BACKSLASH);
            out.push(LOWER_N);
        } else if c == TAB {
            out.push(BACKSLASH);
            out.push(LOWER_T);
        } else {
            out.push(c);
        }
        proof {
            assert(out@ =~= before + escape_of(c));
            assert(out@ + escaped(content@.skip(i + 1)) =~= before + escaped(
                content@.skip(i as int),
            ));
        }
        i = i + 1;
    }
    assert(escaped(content@.skip(i as int)) =~= Seq::<u8>::empty());
    assert(out@ + Seq::<u8>::empty() =~= out@);
}

/// Appends the canonical text of `atom` to `out`.
fn write_atom(atom: &Atom, out: &mut Vec<u8>)
    ensures
        final(out)@ == old(out)@ + atom_text(atom@),
{
    match atom {
        Atom::Symbol(name) => {
            write_bytes(name.as_slice(), out);
        },
        Atom::Number(Number::Integer(n)) => {
            write_integer(*n, out);
        },
        Atom::Number(Number::Real(text)) => {
            write_bytes(text.as_slice(), out);
        },
        Atom::Str(content) => {
            out.push(DOUBLE_QUOTE);
            write_escaped(content.as_slice(), out);
            out.push(DOUBLE_QUOTE);
            assert(out@ =~= old(out)@ + atom_text(atom@));
        },
        Atom::Bool(b) => {
            if *b {
                out.push(116);
                out.push(114);
                out.push(117);
                out.push(101);
            } else {
                out.push(102);
                out.push(97);
                out.push(108);
                out.push(115);
                out.push(101);
            }
            assert(out@ =~= old(out)@ + atom_text(atom@));
        },
        Atom::Nil => {
            out.push(110);
            out.push(105);
            out.push(108);
            assert(out@ =~= old(out)@ + atom_text(atom@));
        },
    }
}

/// What is left to write of the items of a sequence once the first `done`
/// of them are written.
spec fn items_left(items: Seq<Syntax>, done: int) -> Seq<u8> {
    if done <= 0 {
        items_text(items)
    } else if done < items.len() {
        seq![SPACE] + items_text(items.skip(done))
    } else {
        Seq::empty()
    }
}

/// Appends the canonical text of `items`, one blank apart, to `out`.
fn write_items(items: &Vec<AstNode>, out: &mut Vec<u8>)
    ensures
        final(out)@ == old(out)@ + items_text(syntax_of(items@)),
    decreases items, 0int,
{
    let ghost all = syntax_of(items@);
    let mut i: usize = 0;
    while i < items.len()
        invariant
            i <= items@.len(),
            all == syntax_of(items@),
            out@ + items_left(all, i as int) == old(out)@ + items_text(all),
        decreases items@.len() - i,
    {
        let ghost before = out@;
        let ghost rest = all.skip(i as int);
        proof {
            assert(rest[0] == items@[i as int]@);
            assert(rest.drop_first() =~= all.skip(i + 1));
            assert(all.skip(0) =~= all);
        }
        if i > 0 {
            out.push(SPACE);
        }
        let ghost middle = out@;
        write_expr(&items[i], out);
        proof {
            let t = text_of(items@[i as int]@);
            assert(out@ == middle + t);
            if i + 1 < items@.len() {
                assert(items_text(rest) == t + seq![SPACE] + items_text(rest.drop_first()));
                assert(out@ + items_left(all, i + 1) =~= before + items_left(all, i as int));
            } else {
                assert(items_text(rest) == t);
                assert(out@ + items_left(all, i + 1) =~= before + items_left(all, i as int));
            }
        }
        i = i + 1;
    }
    assert(out@ + items_left(all, i as int) =~= out@);
}

/// Appends the canonical text of `node` to `out`.
pub fn write_expr(node: &AstNode, out: &mut Vec<u8>)
    ensures
        final(out)@ == old(out)@ + text_of(node@),
    decreases node, 1int,
{
    proof {
        lemma_view_of_items(*node);
    }
    match node {
        AstNode::Atom(atom) => {
            write_atom(atom, out);
        },
        AstNode::List(items) => {
            out.push(OPEN_PAREN);
            write_items(items, out);
            out.push(CLOSE_PAREN);
            assert(out@ =~= old(out)@ + text_of(node@));
        },
        AstNode::Vector(items) => {
            out.push(OPEN_BRACKET);
            write_items(items, out);
            out.push(CLOSE_BRACKET);
            assert(out@ =~= old(out)@ + text_of(node@));
        },
    }
}

/// The canonical text of one expression.
pub fn render_expr(node: &AstNode) -> (text: Vec<u8>)
    ensures
        text@ == text_of(node@),
{
    let mut text: Vec<u8> = Vec::new();
    write_expr(node, &mut text);
    assert(Seq::<u8>::empty() + text_of(node@) =~= text_of(node@));
    text
}

/// The canonical text of a program: each form on a line of its own.
pub fn render_program(forms: &Vec<AstNode>) -> (text: Vec<u8>)
    ensures
        text@ == program_text(syntax_of(forms@)),
{
    let ghost all = syntax_of(forms@);
    let mut text: Vec<u8> = Vec::new();
    let mut i: usize = 0;
    assert(all.skip(0) =~= all);
    assert(text@ + program_text(all) =~= program_text(all));
    while i < forms.len()
        invariant
            i <= forms@.len(),
            all == syntax_of(forms@),
            text@ + program_text(all.skip(i as int)) == program_text(all),
        decreases forms@.len() - i,
    {
        let ghost before = text@;
        let ghost rest = all.skip(i as int);
        proof {
            assert(rest[0] == forms@[i as int]@);
            assert(rest.drop_first() =~= all.skip(i + 1));
        }
        write_expr(&forms[i], &mut text);
        text.push(NEWLINE);
        proof {
            assert(text@ + program_text(all.skip(i + 1)) =~= before + program_text(rest));
        }
        i = i + 1;
    }
    assert(text@ + program_text(all.skip(i as int)) =~= text@);
    text
}

} // verus!
