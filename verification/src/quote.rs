//! The four quoting shortcuts.
//!
//! `'x` stands for `(quote x)`, a backquote before `x` for `(quasiquote x)`,
//! `,x` for `(unquote x)` and `,@x` for `(unquote-splicing x)`. The reader
//! builds the list; no other kind of node stands for a quoted form.

use vstd::prelude::*;
use crate::ast::AstNode;
use crate::ast::Atom;
use crate::ast::AtomValue;
use crate::ast::Syntax;
use crate::ast::lemma_view_of_items;
use crate::chars::byte_at;
use crate::chars::APOSTROPHE;
use crate::chars::AT_SIGN;
use crate::chars::BACKQUOTE;
use crate::chars::COMMA;

verus! {

/// Which shortcut a prefix is.
#[derive(Clone, Copy, Debug, PartialEq, Eq, Structural)]
pub enum QuoteKind {
    /// `'`
    Quote,
    /// The backquote.
    Quasiquote,
    /// `,`
    Unquote,
    /// `,@`
    UnquoteSplicing,
}

impl QuoteKind {
    /// The bytes of the symbol that heads the list: `quote`, `quasiquote`,
    /// `unquote` or `unquote-splicing`.
    pub open spec fn name(self) -> Seq<u8> {
        match self {
            QuoteKind::Quote => seq![113u8, 117u8, 111u8, 116u8, 101u8],
            QuoteKind::Quasiquote => seq![
                113u8,
                117u8,
                97u8,
                115u8,
                105u8,
                113u8,
                117u8,
                111u8,
                116u8,
                101u8,
            ],
            QuoteKind::Unquote => seq![117u8, 110u8, 113u8, 117u8, 111u8, 116u8, 101u8],
            QuoteKind::UnquoteSplicing => seq![
                117u8,
                110u8,
                113u8,
                117u8,
                111u8,
                116u8,
                101u8,
                45u8,
                115u8,
                112u8,
                108u8,
                105u8,
                99u8,
                105u8,
                110u8,
                103u8,
            ],
        }
    }

    /// The list that the shortcut before `inner` stands for.
    pub open spec fn applied_to(self, inner: Syntax) -> Syntax {
        Syntax::List(seq![Syntax::Atom(AtomValue::Symbol(self.name())), inner])
    }

    /// The symbol that heads the list.
    pub fn symbol(&self) -> (bytes: Vec<u8>)
        ensures
            bytes@ == self.name(),
    {
        let bytes = match self {
            QuoteKind::Quote => vec![113u8, 117u8, 111u8, 116u8, 101u8],
            QuoteKind::Quasiquote => vec![
                113u8,
                117u8,
                97u8,
                115u8,
                105u8,
                113u8,
                117u8,
                111u8,
                116u8,
                101u8,
            ],
            QuoteKind::Unquote => vec![117u8, 110u8, 113u8, 117u8, 111u8, 116u8, 101u8],
            QuoteKind::UnquoteSplicing => vec![
                117u8,
                110u8,
                113u8,
                117u8,
                111u8,
                116u8,
                101u8,
                45u8,
                115u8,
                112u8,
                108u8,
                105u8,
                99u8,
                105u8,
                110u8,
                103u8,
            ],
        };
        assert(bytes@ =~= self.name());
        bytes
    }

    /// Builds the list that the shortcut before `inner` stands for.
    pub fn expand(&self, inner: AstNode) -> (node: AstNode)
        ensures
            node@ == self.applied_to(inner@),
    {
        let mut items: Vec<AstNode> = Vec::new();
        items.push(AstNode::Atom(Atom::Symbol(self.symbol())));
        items.push(inner);
        let node = AstNode::List(items);
        proof {
            lemma_view_of_items(node);
            assert(node@->List_0 =~= self.applied_to(inner@)->List_0);
        }
        node
    }
}

/// The shortcut whose prefix starts at `pos`, with the offset after the
/// prefix. A `,` with an `@` right after it is `,@`.
pub open spec fn prefix_at(s: Seq<u8>, pos: int) -> Option<(QuoteKind, int)> {
    if byte_at(s, pos, APOSTROPHE) {
        Some((QuoteKind::Quote, pos + 1))
    } else if byte_at(s, pos, BACKQUOTE) {
        Some((QuoteKind::Quasiquote, pos + 1))
    } else if byte_at(s, pos, COMMA) {
        if byte_at(s, pos + 1, AT_SIGN) {
            Some((QuoteKind::UnquoteSplicing, pos + 2))
        } else {
            Some((QuoteKind::Unquote, pos + 1))
        }
    } else {
        None
    }
}

/// Reads the prefix of a shortcut at `start`, where one stands there.
pub fn read_prefix(source: &[u8], start: usize) -> (prefix: Option<(QuoteKind, usize)>)
    ensures
        match prefix_at(source@, start as int) {
            Some((kind, after)) => prefix == Some((kind, after as usize)) && start < after
                <= source@.len(),
            None => prefix is None,
        },
{
    if start >= source.len() {
        return None;
    }
    let c = source[start];
    if c == APOSTROPHE {
        Some((QuoteKind::Quote, start + 1))
    } else if c == BACKQUOTE {
        Some((QuoteKind::Quasiquote, start + 1))
    } else if c == COMMA {
        if start + 1 < source.len() && source[start + 1] == AT_SIGN {
            Some((QuoteKind::UnquoteSplicing, start + 2))
        } else {
            Some((QuoteKind::Unquote, start + 1))
        }
    } else {
        None
    }
}

} // verus!
