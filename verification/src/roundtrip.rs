//! Reading the canonical text of a tree gives the tree back, and reading is
//! idempotent on its own canonical text.

use vstd::prelude::*;
use crate::ast::AtomValue;
use crate::ast::NumberValue;
use crate::ast::Syntax;
use crate::ast::all_well_formed;
use crate::ast::atom_is_well_formed;
use crate::atom::atom_at;
use crate::atom::atom_of;
use crate::atom::constituent_end;
use crate::atom::nil_word;
use crate::atom::string_body;
use crate::atom::unescape;
use crate::chars::CLOSE_BRACKET;
use crate::chars::CLOSE_PAREN;
use crate::chars::DOUBLE_QUOTE;
use crate::chars::NEWLINE;
use crate::chars::OPEN_BRACKET;
use crate::chars::OPEN_PAREN;
use crate::chars::SPACE;
use crate::chars::is_closing;
use crate::chars::is_constituent;
use crate::chars::is_digit;
use crate::chars::skip_trivia;
use crate::error::Failure;
use crate::grammar::Grouping;
use crate::grammar::expr_at;
use crate::grammar::forms_at;
use crate::grammar::items_at;
use crate::grammar::program_of;
use crate::number::MINUS;
use crate::number::decimal_value;
use crate::number::digits_end;
use crate::number::fraction_end;
use crate::number::integer_value;
use crate::number::is_integer_literal;
use crate::number::is_numeric_literal;
use crate::number::lemma_digits_end;
use crate::number::numeric_end;
use crate::number::sign_end;
use crate::outcome::theorem_program_outcome;
use crate::render::atom_text;
use crate::render::digits_of;
use crate::render::escape_of;
use crate::render::escaped;
use crate::render::integer_text;
use crate::render::items_text;
use crate::render::program_text;
use crate::render::text_of;

verus! {


/// Whether the bytes `t` stand in `s` from `pos` on.
pub open spec fn occurs_at(s: Seq<u8>, pos: int, t: Seq<u8>) -> bool {
    &&& 0 <= pos
    &&& pos + t.len() <= s.len()
    &&& forall|i: int| 0 <= i < t.len() ==> s[pos + i] == #[trigger] t[i]
}

/// Whether a run of constituent bytes must end at `end`: the text ends there,
/// or the byte there is no constituent.
pub open spec fn token_ends(s: Seq<u8>, end: int) -> bool {
    end >= s.len() || !is_constituent(s[end])
}

/// Where `a` and then `b` stand, `a` stands and `b` stands after it.
pub proof fn lemma_occurs_split(s: Seq<u8>, pos: int, a: Seq<u8>, b: Seq<u8>)
    requires
        occurs_at(s, pos, a + b),
    ensures
        occurs_at(s, pos, a),
        occurs_at(s, pos + a.len(), b),
{
    assert forall|i: int| 0 <= i < a.len() implies s[pos + i] == #[trigger] a[i] by {
        assert((a + b)[i] == a[i]);
    }
    assert forall|i: int| 0 <= i < b.len() implies s[pos + a.len() + i] == #[trigger] b[i] by {
        assert((a + b)[a.len() + i] == b[i]);
    }
}

/// Constituent bytes that stand at `pos` and cannot go on after their last are
/// the run that the reader takes there.
pub proof fn lemma_constituent_run(s: Seq<u8>, pos: int, t: Seq<u8>, k: int)
    requires
        occurs_at(s, pos, t),
        forall|i: int| 0 <= i < t.len() ==> is_constituent(#[trigger] t[i]),
        token_ends(s, pos + t.len()),
        0 <= k <= t.len(),
    ensures
        constituent_end(s, pos + k) == pos + t.len(),
        k == 0 ==> s.subrange(pos, pos + t.len()) == t,
    decreases t.len() - k,
{
    if k < t.len() {
        assert(s[pos + k] == t[k]);
        lemma_constituent_run(s, pos, t, k + 1);
    }
    if k == 0 {
        assert(s.subrange(pos, pos + t.len()) =~= t);
    }
}

/// Digits from `from` up to `to`, with no digit at `to`, are the run of digits
/// at `from`.
pub proof fn lemma_digit_run(s: Seq<u8>, from: int, to: int)
    requires
        0 <= from <= to <= s.len(),
        forall|i: int| from <= i < to ==> is_digit(#[trigger] s[i]),
        to == s.len() || !is_digit(s[to]),
    ensures
        digits_end(s, from) == to,
    decreases to - from,
{
    if from < to {
        lemma_digit_run(s, from + 1, to);
    }
}

/// The digits of a number are digits, and write that number.
pub proof fn lemma_digits_of(n: nat)
    ensures
        digits_of(n).len() >= 1,
        forall|i: int| 0 <= i < digits_of(n).len() ==> is_digit(#[trigger] digits_of(n)[i]),
        decimal_value(digits_of(n)) == n,
    decreases n,
{
    let d = digits_of(n);
    if n < 10 {
        assert(d.drop_last() =~= Seq::<u8>::empty());
        assert(decimal_value(d.drop_last()) == 0);
    } else {
        lemma_digits_of(n / 10);
        assert(d.drop_last() =~= digits_of(n / 10));
    }
}

/// The text of an integer is an integer literal with that value.
pub proof fn lemma_integer_text(n: int)
    ensures
        is_numeric_literal(integer_text(n)),
        is_integer_literal(integer_text(n)),
        integer_value(integer_text(n)) == n,
{
    let t = integer_text(n);
    let magnitude: nat = if n < 0 {
        (-n) as nat
    } else {
        n as nat
    };
    let digits = digits_of(magnitude);
    lemma_digits_of(magnitude);
    let d = sign_end(t, 0);
    if n < 0 {
        assert(t[0] == MINUS);
        assert(d == 1);
        assert forall|i: int| 1 <= i < t.len() implies is_digit(#[trigger] t[i]) by {
            assert(t[i] == digits[i - 1]);
        }
        assert(t.subrange(1, t.len() as int) =~= digits);
    } else {
        assert(is_digit(digits[0]));
        assert(d == 0);
        assert(t.subrange(0, t.len() as int) =~= digits);
    }
    lemma_digit_run(t, d, t.len() as int);
}

/// Every byte of a numeric literal is a constituent, and there is at least
/// one.
pub proof fn lemma_numeric_is_constituent(lexeme: Seq<u8>)
    requires
        is_numeric_literal(lexeme),
    ensures
        lexeme.len() > 0,
        forall|i: int| 0 <= i < lexeme.len() ==> is_constituent(#[trigger] lexeme[i]),
{
    let d = sign_end(lexeme, 0);
    lemma_digits_end(lexeme, d);
    let w = digits_end(lexeme, d);
    let f = fraction_end(lexeme, w)->0;
    if w < lexeme.len() {
        lemma_digits_end(lexeme, w + 1);
    }
    let k = sign_end(lexeme, f + 1);
    if f < lexeme.len() {
        lemma_digits_end(lexeme, k);
    }
    assert forall|i: int| 0 <= i < lexeme.len() implies is_constituent(#[trigger] lexeme[i]) by {
        if i < d {
        } else if i < w {
            assert(is_digit(lexeme[i]));
        } else if i < f {
            if i > w {
                assert(is_digit(lexeme[i]));
            }
        } else if i < k {
        } else {
            assert(is_digit(lexeme[i]));
        }
    }
}

/// The escaped content of a string and the `"` after it are read back as that
/// content.
pub proof fn lemma_reads_string(s: Seq<u8>, pos: int, content: Seq<u8>, before: Seq<u8>)
    requires
        occurs_at(s, pos, escaped(content) + seq![DOUBLE_QUOTE]),
    ensures
        string_body(s, pos, before) == Ok::<(Seq<u8>, int), Failure>(
            (before + content, pos + escaped(content).len() + 1),
        ),
    decreases content.len(),
{
    let quote = seq![DOUBLE_QUOTE];
    if content.len() == 0 {
        assert((escaped(content) + quote)[0] == DOUBLE_QUOTE);
        assert(s[pos + 0] == DOUBLE_QUOTE);
        assert(before + content =~= before);
    } else {
        let c = content[0];
        let e = escape_of(c);
        let rest = content.drop_first();
        assert(escaped(content) + quote =~= e + (escaped(rest) + quote));
        lemma_occurs_split(s, pos, e, escaped(rest) + quote);
        assert(s[pos + 0] == e[0]);
        if e.len() == 2 {
            assert(s[pos + 1] == e[1]);
            assert(unescape(e[1]) == c);
        }
        lemma_reads_string(s, pos + e.len(), rest, before.push(c));
        assert(before.push(c) + rest =~= before + content);
    }
}

/// The canonical text of an atom that is no string is a run of constituent
/// bytes that stands for the atom.
pub proof fn lemma_atom_lexeme(atom: AtomValue)
    requires
        atom_is_well_formed(atom),
        !(atom is Str),
    ensures
        atom_text(atom).len() > 0,
        forall|i: int|
            0 <= i < atom_text(atom).len() ==> is_constituent(#[trigger] atom_text(atom)[i]),
        atom_of(atom_text(atom)) == atom,
{
    let t = atom_text(atom);
    match atom {
        AtomValue::Symbol(name) => {},
        AtomValue::Number(NumberValue::Integer(n)) => {
            lemma_integer_text(n);
            lemma_numeric_is_constituent(t);
        },
        AtomValue::Number(NumberValue::Real(text)) => {
            lemma_numeric_is_constituent(t);
        },
        AtomValue::Str(_) => {},
        AtomValue::Bool(b) => {
            assert(!is_digit(t[0]));
            assert(numeric_end(t) is None);
            assert(t.len() != nil_word().len());
        },
        AtomValue::Nil => {
            assert(!is_digit(t[0]));
            assert(numeric_end(t) is None);
        },
    }
}

/// The canonical text of an atom is read back as the atom, where no
/// constituent byte follows it.
pub proof fn lemma_reads_atom(s: Seq<u8>, pos: int, atom: AtomValue)
    requires
        atom_is_well_formed(atom),
        occurs_at(s, pos, atom_text(atom)),
        token_ends(s, pos + atom_text(atom).len()),
    ensures
        atom_at(s, pos) == Ok::<(AtomValue, int), Failure>(
            (atom, pos + atom_text(atom).len()),
        ),
        atom_text(atom).len() > 0,
        s[pos] == DOUBLE_QUOTE || is_constituent(s[pos]),
{
    let t = atom_text(atom);
    match atom {
        AtomValue::Str(content) => {
            let quote = seq![DOUBLE_QUOTE];
            assert(t =~= quote + (escaped(content) + quote));
            lemma_occurs_split(s, pos, quote, escaped(content) + quote);
            assert(s[pos + 0] == quote[0]);
            lemma_reads_string(s, pos + 1, content, Seq::empty());
            assert(Seq::<u8>::empty() + content =~= content);
        },
        _ => {
            lemma_atom_lexeme(atom);
            lemma_constituent_run(s, pos, t, 0);
            assert(s[pos + 0] == t[0]);
        },
    }
}

/// The canonical text of a well-formed expression is read back as that
/// expression, where no constituent byte follows it.
pub proof fn lemma_reads_expr(s: Seq<u8>, pos: int, x: Syntax)
    requires
        x.is_well_formed(),
        occurs_at(s, pos, text_of(x)),
        token_ends(s, pos + text_of(x).len()),
    ensures
        expr_at(s, pos) == Ok::<(Syntax, int), Failure>((x, pos + text_of(x).len())),
        text_of(x).len() > 0,
        skip_trivia(s, pos) == pos,
        !is_closing(s[pos]),
    decreases x, 0int,
{
    let t = text_of(x);
    match x {
        Syntax::Atom(atom) => {
            lemma_reads_atom(s, pos, atom);
        },
        Syntax::List(items) => {
            let open = seq![OPEN_PAREN];
            let close = seq![CLOSE_PAREN];
            assert(t =~= open + (items_text(items) + close));
            lemma_occurs_split(s, pos, open, items_text(items) + close);
            assert(s[pos + 0] == open[0]);
            lemma_reads_items(s, pos + 1, Grouping::List, items, Seq::empty());
            assert(Seq::<Syntax>::empty() + items =~= items);
        },
        Syntax::Vector(items) => {
            let open = seq![OPEN_BRACKET];
            let close = seq![CLOSE_BRACKET];
            assert(t =~= open + (items_text(items) + close));
            lemma_occurs_split(s, pos, open, items_text(items) + close);
            assert(s[pos + 0] == open[0]);
            lemma_reads_items(s, pos + 1, Grouping::Vector, items, Seq::empty());
            assert(Seq::<Syntax>::empty() + items =~= items);
        },
    }
}

/// The canonical text of the items of a sequence and the closing delimiter
/// after it are read back as those items.
pub proof fn lemma_reads_items(
    s: Seq<u8>,
    pos: int,
    grouping: Grouping,
    items: Seq<Syntax>,
    before: Seq<Syntax>,
)
    requires
        all_well_formed(items),
        occurs_at(s, pos, items_text(items) + seq![grouping.closer()]),
    ensures
        items_at(s, pos, grouping, before) == Ok::<(Seq<Syntax>, int), Failure>(
            (before + items, pos + items_text(items).len() + 1),
        ),
    decreases items, 1int,
{
    let close = seq![grouping.closer()];
    if items.len() == 0 {
        assert((items_text(items) + close)[0] == grouping.closer());
        assert(s[pos + 0] == grouping.closer());
        assert(before + items =~= before);
    } else {
        let first = items[0];
        let rest = items.drop_first();
        let t0 = text_of(first);
        let end = pos + t0.len();
        assert(first.is_well_formed());
        assert(all_well_formed(rest)) by {
            assert forall|i: int| 0 <= i < rest.len() implies (#[trigger] rest[i]).is_well_formed() by {
                assert(rest[i] == items[i + 1]);
            }
        }
        if items.len() == 1 {
            lemma_occurs_split(s, pos, t0, close);
            assert(s[end + 0] == close[0]);
            lemma_reads_expr(s, pos, first);
            assert(items_text(rest) + close =~= close);
            lemma_reads_items(s, end, grouping, rest, before.push(first));
        } else {
            let blank = seq![SPACE];
            assert(items_text(items) + close =~= t0 + (blank + (items_text(rest) + close)));
            lemma_occurs_split(s, pos, t0, blank + (items_text(rest) + close));
            lemma_occurs_split(s, end, blank, items_text(rest) + close);
            assert(s[end + 0] == blank[0]);
            lemma_reads_expr(s, pos, first);
            assert(skip_trivia(s, end) == skip_trivia(s, end + 1));
            lemma_reads_items(s, end + 1, grouping, rest, before.push(first));
            assert(items_at(s, end, grouping, before.push(first)) == items_at(
                s,
                end + 1,
                grouping,
                before.push(first),
            ));
        }
        assert(before.push(first) + rest =~= before + items);
    }
}

/// The canonical text of a program, up to the end of the text, is read back
/// as its forms.
pub proof fn lemma_reads_forms(s: Seq<u8>, pos: int, forms: Seq<Syntax>, before: Seq<Syntax>)
    requires
        all_well_formed(forms),
        occurs_at(s, pos, program_text(forms)),
        pos + program_text(forms).len() == s.len(),
    ensures
        forms_at(s, pos, before) == Ok::<Seq<Syntax>, Failure>(before + forms),
    decreases forms.len(),
{
    if forms.len() == 0 {
        assert(before + forms =~= before);
    } else {
        let first = forms[0];
        let rest = forms.drop_first();
        let t0 = text_of(first);
        let end = pos + t0.len();
        let line_end = seq![NEWLINE];
        assert(first.is_well_formed());
        assert(all_well_formed(rest)) by {
            assert forall|i: int| 0 <= i < rest.len() implies (#[trigger] rest[i]).is_well_formed() by {
                assert(rest[i] == forms[i + 1]);
            }
        }
        assert(program_text(forms) =~= t0 + (line_end + program_text(rest)));
        lemma_occurs_split(s, pos, t0, line_end + program_text(rest));
        lemma_occurs_split(s, end, line_end, program_text(rest));
        assert(s[end + 0] == line_end[0]);
        lemma_reads_expr(s, pos, first);
        assert(skip_trivia(s, end) == skip_trivia(s, end + 1));
        lemma_reads_forms(s, end + 1, rest, before.push(first));
        assert(forms_at(s, end, before.push(first)) == forms_at(s, end + 1, before.push(first)));
        assert(before.push(first) + rest =~= before + forms);
    }
}

/// Reading the canonical text of well-formed forms gives the forms back.
pub proof fn theorem_canonical_text_reads_back(forms: Seq<Syntax>)
    requires
        all_well_formed(forms),
    ensures
        program_of(program_text(forms)) == Ok::<Seq<Syntax>, Failure>(forms),
{
    let t = program_text(forms);
    assert(occurs_at(t, 0, t));
    lemma_reads_forms(t, 0, forms, Seq::empty());
    assert(Seq::<Syntax>::empty() + forms =~= forms);
}

/// Reading is idempotent on its own canonical text: where a text is read as
/// some forms, the canonical text of those forms is read as the same forms.
pub proof fn theorem_reading_is_idempotent(s: Seq<u8>)
    requires
        program_of(s) is Ok,
    ensures
        program_of(program_text(program_of(s)->Ok_0)) == program_of(s),
{
    theorem_program_outcome(s);
    theorem_canonical_text_reads_back(program_of(s)->Ok_0);
}

} // verus!
