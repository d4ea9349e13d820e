use vstd::prelude::*;
use crate::source::Span;

verus! {

/// The pattern of a `let`. Only a plain identifier introduces a binding that can
/// be renamed; every other pattern is kept as an opaque span.
#[derive(Clone, Debug)]
pub enum Pat {
    Ident { name: Vec<u8>, span: Span },
    Other { span: Span },
}

/// An expression, reduced to its span and the blocks nested directly in it
/// (the body of an `if`, a loop, a block expression), in source order.
#[derive(Debug)]
pub struct Expr {
    pub span: Span,
    pub blocks: Vec<Block>,
}

/// A `let` declaration: its pattern, its initializer if any, and its whole span.
#[derive(Debug)]
pub struct Local {
    pub pat: Pat,
    pub init: Option<Expr>,
    pub span: Span,
}

/// A statement of a block.
#[derive(Debug)]
pub enum Stmt {
    Local(Local),
    Expr(Expr),
    /// A nested item (a function, a closure-like body): never searched.
    Item(Span),
    Other(Span),
}

/// A block `{ ... }` and its statements in source order.
#[derive(Debug)]
pub struct Block {
    pub stmts: Vec<Stmt>,
    pub span: Span,
}

#[derive(Debug)]
pub enum ItemKind {
    Fn { body: Block },
    Other,
}

/// A top-level item of a source file.
#[derive(Debug)]
pub struct Item {
    pub kind: ItemKind,
    pub span: Span,
}

broadcast use vstd::seq::axiom_seq_index_decreases, vstd::seq::axiom_seq_subrange_decreases,
    vstd::std_specs::vec::axiom_vec_decreases_to_view;

/// The identifier span that a `let` pattern binds under `name`, if any.
pub open spec fn pat_bindings(p: Pat, name: Seq<u8>) -> Seq<Span> {
    match p {
        Pat::Ident { name: n, span } => if n@ == name { seq![span] } else { Seq::empty() },
        Pat::Other { .. } => Seq::empty(),
    }
}

/// The identifier spans of the `let` bindings named `name` in a local, in source
/// order: its own pattern first, then those inside its initializer.
pub open spec fn local_bindings(l: Local, name: Seq<u8>) -> Seq<Span>
    decreases l,
{
    pat_bindings(l.pat, name) + match l.init {
        Some(e) => expr_bindings(e, name),
        None => Seq::empty(),
    }
}

pub open spec fn expr_bindings(e: Expr, name: Seq<u8>) -> Seq<Span>
    decreases e,
{
    blocks_bindings(e.blocks@, name)
}

pub open spec fn blocks_bindings(bs: Seq<Block>, name: Seq<u8>) -> Seq<Span>
    decreases bs,
{
    if bs.len() == 0 {
        Seq::empty()
    } else {
        blocks_bindings(bs.drop_last(), name) + block_bindings(bs.last(), name)
    }
}

pub open spec fn block_bindings(b: Block, name: Seq<u8>) -> Seq<Span>
    decreases b,
{
    stmts_bindings(b.stmts@, name)
}

pub open spec fn stmts_bindings(ss: Seq<Stmt>, name: Seq<u8>) -> Seq<Span>
    decreases ss,
{
    if ss.len() == 0 {
        Seq::empty()
    } else {
        stmts_bindings(ss.drop_last(), name) + stmt_bindings(ss.last(), name)
    }
}

pub open spec fn stmt_bindings(s: Stmt, name: Seq<u8>) -> Seq<Span>
    decreases s,
{
    match s {
        Stmt::Local(l) => local_bindings(l, name),
        Stmt::Expr(e) => expr_bindings(e, name),
        Stmt::Item(_) => Seq::empty(),
        Stmt::Other(_) => Seq::empty(),
    }
}

/// The identifier spans of the `let` bindings named `name` in an item: those of
/// a function's body, none for any other item.
pub open spec fn item_bindings(it: Item, name: Seq<u8>) -> Seq<Span> {
    match it.kind {
        ItemKind::Fn { body } => block_bindings(body, name),
        ItemKind::Other => Seq::empty(),
    }
}

} // verus!
