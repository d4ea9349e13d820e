use vstd::prelude::*;
use crate::source::Span;
use crate::ast::{
    Block, Expr, Item, ItemKind, Local, Pat, Stmt, block_bindings, blocks_bindings, expr_bindings,
    item_bindings, local_bindings, pat_bindings, stmt_bindings, stmts_bindings,
};

verus! {

broadcast use vstd::seq::axiom_seq_index_decreases, vstd::std_specs::vec::axiom_vec_index_decreases,
    vstd::std_specs::vec::axiom_vec_decreases_to_view;

/// Byte-wise equality of two names.
pub fn same_name(a: &Vec<u8>, b: &Vec<u8>) -> (r: bool)
    ensures
        r == (a@ == b@),
{
    if a.len() != b.len() {
        return false;
    }
    let mut i: usize = 0;
    while i < a.len()
        invariant
            a@.len() == b@.len(),
            i <= a@.len(),
            forall|k: int| 0 <= k < i ==> a@[k] == b@[k],
        decreases a@.len() - i,
    {
        if a[i] != b[i] {
            return false;
        }
        i = i + 1;
    }
    assert(a@ =~= b@);
    true
}

fn collect_pat(p: &Pat, name: &Vec<u8>, out: &mut Vec<Span>)
    ensures
        final(out)@ == old(out)@ + pat_bindings(*p, name@),
{
    match p {
        Pat::Ident { name: n, span } => {
            if same_name(n, name) {
                out.push(*span);
            } else {
                assert(old(out)@ + pat_bindings(*p, name@) =~= old(out)@);
            }
        },
        Pat::Other { .. } => {
            assert(old(out)@ + pat_bindings(*p, name@) =~= old(out)@);
        },
    }
}

fn collect_local(l: &Local, name: &Vec<u8>, out: &mut Vec<Span>)
    ensures
        final(out)@ == old(out)@ + local_bindings(*l, name@),
    decreases l, 2nat,
{
    collect_pat(&l.pat, name, out);
    match &l.init {
        Some(e) => {
            collect_expr(e, name, out);
        },
        None => {},
    }
    assert(final(out)@ =~= old(out)@ + local_bindings(*l, name@));
}

fn collect_expr(e: &Expr, name: &Vec<u8>, out: &mut Vec<Span>)
    ensures
        final(out)@ == old(out)@ + expr_bindings(*e, name@),
    decreases e, 2nat,
{
    let ghost start = out@;
    let mut i: usize = 0;
    while i < e.blocks.len()
        invariant
            i <= e.blocks@.len(),
            out@ == start + blocks_bindings(e.blocks@.take(i as int), name@),
        decreases e.blocks@.len() - i,
    {
        assert(decreases_to!(e => e.blocks[i as int]));
        collect_block(&e.blocks[i], name, out);
        assert(e.blocks@.take(i + 1).drop_last() =~= e.blocks@.take(i as int));
        i = i + 1;
    }
    assert(e.blocks@.take(i as int) =~= e.blocks@);
}

fn collect_block(b: &Block, name: &Vec<u8>, out: &mut Vec<Span>)
    ensures
        final(out)@ == old(out)@ + block_bindings(*b, name@),
    decreases b, 2nat,
{
    let ghost start = out@;
    let mut i: usize = 0;
    while i < b.stmts.len()
        invariant
            i <= b.stmts@.len(),
            out@ == start + stmts_bindings(b.stmts@.take(i as int), name@),
        decreases b.stmts@.len() - i,
    {
        assert(decreases_to!(b => b.stmts[i as int]));
        collect_stmt(&b.stmts[i], name, out);
        assert(b.stmts@.take(i + 1).drop_last() =~= b.stmts@.take(i as int));
        i = i + 1;
    }
    assert(b.stmts@.take(i as int) =~= b.stmts@);
}

fn collect_stmt(s: &Stmt, name: &Vec<u8>, out: &mut Vec<Span>)
    ensures
        final(out)@ == old(out)@ + stmt_bindings(*s, name@),
    decreases s, 2nat,
{
    match s {
        Stmt::Local(l) => collect_local(l, name, out),
        Stmt::Expr(e) => collect_expr(e, name, out),
        _ => {
            assert(old(out)@ + stmt_bindings(*s, name@) =~= old(out)@);
        },
    }
}

/// The identifier spans of every `let` binding named `name` in a block and the
/// blocks nested in it, in source order. Shadowing is not resolved: each such
/// binding is found.
pub fn locate_in_block(b: &Block, name: &Vec<u8>) -> (r: Vec<Span>)
    ensures
        r@ == block_bindings(*b, name@),
{
    let mut out: Vec<Span> = Vec::new();
    collect_block(b, name, &mut out);
    assert(out@ =~= block_bindings(*b, name@));
    out
}

/// The identifier spans of every `let` binding named `name` in an item.
pub fn locate_in_item(it: &Item, name: &Vec<u8>) -> (r: Vec<Span>)
    ensures
        r@ == item_bindings(*it, name@),
{
    match &it.kind {
        ItemKind::Fn { body } => locate_in_block(body, name),
        ItemKind::Other => Vec::new(),
    }
}

} // verus!
