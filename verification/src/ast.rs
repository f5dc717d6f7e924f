//! The tree that the reader builds.
//!
//! A tree is well formed where the reader can build it: the name of each
//! symbol is a run of constituent bytes that is neither a numeric literal nor
//! a reserved word, and each number that is kept as text is a numeric literal
//! that does not fit an integer of 64 bits.

use vstd::prelude::*;
use crate::atom::is_reserved_word;
use crate::chars::is_constituent;
use crate::number::is_numeric_literal;
use crate::number::number_value;

verus! {

/// A numeric literal.
#[derive(Debug, PartialEq, Eq)]
pub enum Number {
    /// A whole number that fits in 64 bits.
    Integer(i64),
    /// Any other numeric literal, kept as it was written: one with a fraction
    /// or an exponent, or a whole number beyond 64 bits.
    Real(Vec<u8>),
}

/// A leaf of the tree.
#[derive(Debug, PartialEq, Eq)]
pub enum Atom {
    /// A name, as it was written.
    Symbol(Vec<u8>),
    /// A number.
    Number(Number),
    /// The content of a string literal, with its escapes resolved.
    Str(Vec<u8>),
    /// `true` or `false`.
    Bool(bool),
    /// `nil`.
    Nil,
}

/// One expression of the text.
#[derive(Debug, PartialEq, Eq)]
pub enum AstNode {
    /// A leaf.
    Atom(Atom),
    /// The expressions between `(` and `)`, in the order of the text.
    List(Vec<AstNode>),
    /// The expressions between `[` and `]`, in the order of the text.
    Vector(Vec<AstNode>),
}

/// A number as a mathematical value.
pub enum NumberValue {
    /// A whole number.
    Integer(int),
    /// The bytes of a numeric literal that is kept as it was written.
    Real(Seq<u8>),
}

/// An atom as a mathematical value.
pub enum AtomValue {
    /// The bytes of a name.
    Symbol(Seq<u8>),
    /// A number.
    Number(NumberValue),
    /// The bytes of a string, with its escapes resolved.
    Str(Seq<u8>),
    /// `true` or `false`.
    Bool(bool),
    /// `nil`.
    Nil,
}

/// An expression as a mathematical value: what an `AstNode` stands for.
pub enum Syntax {
    /// A leaf.
    Atom(AtomValue),
    /// The items of a list, in order.
    List(Seq<Syntax>),
    /// The items of a vector, in order.
    Vector(Seq<Syntax>),
}

impl View for Number {
    type V = NumberValue;

    open spec fn view(&self) -> NumberValue {
        match self {
            Number::Integer(n) => NumberValue::Integer(*n as int),
            Number::Real(text) => NumberValue::Real(text@),
        }
    }
}

impl View for Atom {
    type V = AtomValue;

    open spec fn view(&self) -> AtomValue {
        match self {
            Atom::Symbol(name) => AtomValue::Symbol(name@),
            Atom::Number(n) => AtomValue::Number(n@),
            Atom::Str(content) => AtomValue::Str(content@),
            Atom::Bool(b) => AtomValue::Bool(*b),
            Atom::Nil => AtomValue::Nil,
        }
    }
}

impl View for AstNode {
    type V = Syntax;

    /// What the node stands for. A list or a vector stands for the values of
    /// its items, in order (`lemma_view_of_items` says so in one line); the
    /// test on the index is what shows that the definition only ever goes
    /// from a node to its own items.
    open spec fn view(&self) -> Syntax
        decreases self,
    {
        match self {
            AstNode::Atom(a) => Syntax::Atom(a@),
            AstNode::List(items) => Syntax::List(
                Seq::new(
                    items@.len(),
                    |i: int|
                        if 0 <= i < items@.len() {
                            items@[i].view()
                        } else {
                            Syntax::Atom(AtomValue::Nil)
                        },
                ),
            ),
            AstNode::Vector(items) => Syntax::Vector(
                Seq::new(
                    items@.len(),
                    |i: int|
                        if 0 <= i < items@.len() {
                            items@[i].view()
                        } else {
                            Syntax::Atom(AtomValue::Nil)
                        },
                ),
            ),
        }
    }
}

/// What each node of `nodes` stands for, in the same order.
pub open spec fn syntax_of(nodes: Seq<AstNode>) -> Seq<Syntax> {
    Seq::new(nodes.len(), |i: int| nodes[i]@)
}

/// A list or a vector stands for the values of its items.
pub proof fn lemma_view_of_items(node: AstNode)
    ensures
        node matches AstNode::List(items) ==> node@ == Syntax::List(syntax_of(items@)),
        node matches AstNode::Vector(items) ==> node@ == Syntax::Vector(syntax_of(items@)),
{
    match node {
        AstNode::Atom(_) => {},
        AstNode::List(items) => {
            assert(node@->List_0 =~= syntax_of(items@));
        },
        AstNode::Vector(items) => {
            assert(node@->Vector_0 =~= syntax_of(items@));
        },
    }
}

/// Whether `name` can be the name of a symbol: a run of constituent bytes, not
/// empty, that is neither a numeric literal nor a reserved word.
pub open spec fn is_symbol_name(name: Seq<u8>) -> bool {
    &&& name.len() > 0
    &&& forall|i: int| 0 <= i < name.len() ==> is_constituent(#[trigger] name[i])
    &&& !is_numeric_literal(name)
    &&& !is_reserved_word(name)
}

/// Whether the reader can build `atom`.
pub open spec fn atom_is_well_formed(atom: AtomValue) -> bool {
    match atom {
        AtomValue::Symbol(name) => is_symbol_name(name),
        AtomValue::Number(NumberValue::Integer(n)) => i64::MIN <= n <= i64::MAX,
        AtomValue::Number(NumberValue::Real(text)) => is_numeric_literal(text) && number_value(text)
            == NumberValue::Real(text),
        AtomValue::Str(_) => true,
        AtomValue::Bool(_) => true,
        AtomValue::Nil => true,
    }
}

impl Syntax {
    /// Whether the reader can build this tree: every atom of it is one that
    /// the reader can build.
    pub open spec fn is_well_formed(self) -> bool
        decreases self,
    {
        match self {
            Syntax::Atom(atom) => atom_is_well_formed(atom),
            Syntax::List(items) => forall|i: int|
                0 <= i < items.len() ==> (#[trigger] items[i]).is_well_formed(),
            Syntax::Vector(items) => forall|i: int|
                0 <= i < items.len() ==> (#[trigger] items[i]).is_well_formed(),
        }
    }
}

/// Whether the reader can build every tree of `forms`.
pub open spec fn all_well_formed(forms: Seq<Syntax>) -> bool {
    forall|i: int| 0 <= i < forms.len() ==> (#[trigger] forms[i]).is_well_formed()
}

} // verus!
