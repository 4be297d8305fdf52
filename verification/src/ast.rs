//! The abstract syntax tree that the parser produces, and its model.

use vstd::prelude::*;

verus! {

/// A node of the surface-syntax tree.
#[derive(Debug, PartialEq, Eq)]
pub enum Ast {
    /// A sequence of parts matched one after the other.
    Concat(Vec<Ast>),
    /// An alternation between two or more match bodies.
    Either(Vec<Ast>),
    /// A named operator (`capture`, `not`, `lookahead`, ...) applied to a
    /// body, with an optional tag name after a colon.
    Operator { op: String, name: String, subexpr: Box<Ast> },
    /// A repetition: `N`, `N-M` or `N+` applied to a body.
    Multiple { from: u32, to: Option<u32>, subexpr: Box<Ast> },
    /// A reference to a macro, `#name`.
    Macro(String),
    /// A macro definition, `#name=[...]`.
    DefMacro(String, Box<Ast>),
    /// A character range, `#c..d`.
    Range { start: char, end: char },
    /// A run of literal text.
    Literal(String),
}

/// The model of a syntax-tree node.
#[verifier::ext_equal]
pub enum SpecAst {
    Concat(Seq<SpecAst>),
    Either(Seq<SpecAst>),
    Operator { op: Seq<char>, name: Seq<char>, subexpr: Box<SpecAst> },
    Multiple { from: u32, to: Option<u32>, subexpr: Box<SpecAst> },
    Macro(Seq<char>),
    DefMacro(Seq<char>, Box<SpecAst>),
    Range { start: char, end: char },
    Literal(Seq<char>),
}

/// The model of one syntax-tree node.
pub open spec fn ast_view(a: Ast) -> SpecAst
    decreases a,
{
    match a {
        Ast::Concat(items) => SpecAst::Concat(ast_seq_view(items@)),
        Ast::Either(items) => SpecAst::Either(ast_seq_view(items@)),
        Ast::Operator { op, name, subexpr } => SpecAst::Operator {
            op: op@,
            name: name@,
            subexpr: Box::new(ast_view(*subexpr)),
        },
        Ast::Multiple { from, to, subexpr } => SpecAst::Multiple {
            from,
            to,
            subexpr: Box::new(ast_view(*subexpr)),
        },
        Ast::Macro(name) => SpecAst::Macro(name@),
        Ast::DefMacro(name, body) => SpecAst::DefMacro(name@, Box::new(ast_view(*body))),
        Ast::Range { start, end } => SpecAst::Range { start, end },
        Ast::Literal(s) => SpecAst::Literal(s@),
    }
}

/// The model of a sequence of syntax-tree nodes.
pub open spec fn ast_seq_view(items: Seq<Ast>) -> Seq<SpecAst>
    decreases items,
{
    if items.len() == 0 {
        Seq::empty()
    } else {
        ast_seq_view(items.drop_last()).push(ast_view(items.last()))
    }
}

impl View for Ast {
    type V = SpecAst;

    open spec fn view(&self) -> SpecAst {
        ast_view(*self)
    }
}

/// `ast_seq_view` maps the node model over the sequence, element by element.
pub proof fn lemma_ast_seq_view(items: Seq<Ast>)
    ensures
        ast_seq_view(items).len() == items.len(),
        forall|i: int| 0 <= i < items.len() ==> ast_seq_view(items)[i] == ast_view(items[i]),
    decreases items.len(),
{
    if items.len() > 0 {
        lemma_ast_seq_view(items.drop_last());
    }
}

} // verus!
