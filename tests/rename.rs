use local_rename::ast::{Block, Expr, Item, ItemKind, Local, Pat, Stmt};
use local_rename::locate::{locate_in_block, locate_in_item, same_name};
use local_rename::plan::{has_clash, plan_splices, PlanError, SplicePosition};
use local_rename::render::str_after_splice;
use local_rename::rename::{rename, rename_in_item, CoreError, RewriteOutcome};
use local_rename::source::{LookupError, SourceText, Span};

fn at(src: &str, pat: &str, skip: usize) -> usize {
    src.find(pat).unwrap() + skip
}

fn nth_at(src: &str, pat: &str, n: usize, skip: usize) -> usize {
    src.match_indices(pat).nth(n).unwrap().0 + skip
}

fn let_stmt(name: &str, lo: usize, stmt: Span, init: Option<Expr>) -> Stmt {
    Stmt::Local(Local {
        pat: Pat::Ident { name: name.as_bytes().to_vec(), span: Span::new(lo, lo + name.len()) },
        init,
        span: stmt,
    })
}

fn whole(src: &str) -> Span {
    Span::new(0, src.len())
}

fn text(src: &str) -> SourceText {
    SourceText::new(src.as_bytes().to_vec())
}

fn rewritten(r: Result<RewriteOutcome, CoreError>) -> String {
    match r {
        Ok(RewriteOutcome::Rewritten(t)) => String::from_utf8(t).unwrap(),
        other => panic!("expected a rewrite, got {:?}", other),
    }
}

const FOO: &str = "fn foo() { let x = 1; let y = x + 1; }";

fn foo_item() -> Item {
    let body = Block {
        stmts: vec![
            let_stmt("x", at(FOO, "let x", 4), Span::new(at(FOO, "let x", 0), at(FOO, "1;", 2)), None),
            let_stmt("y", at(FOO, "let y", 4), Span::new(at(FOO, "let y", 0), at(FOO, "1; }", 2)), None),
        ],
        span: Span::new(at(FOO, "{", 0), FOO.len()),
    };
    Item { kind: ItemKind::Fn { body }, span: whole(FOO) }
}

const NESTED: &str = "fn f() { { let x = 1; } { let x = 2; } }";

fn nested_body() -> Block {
    let inner = |n: usize| Block {
        stmts: vec![let_stmt(
            "x",
            nth_at(NESTED, "let x", n, 4),
            Span::new(nth_at(NESTED, "let x", n, 0), nth_at(NESTED, "let x", n, 10)),
            None,
        )],
        span: Span::new(nth_at(NESTED, "{ let", n, 0), nth_at(NESTED, "; }", n, 3)),
    };
    Block {
        stmts: vec![
            Stmt::Expr(Expr { span: inner(0).span, blocks: vec![inner(0)] }),
            Stmt::Expr(Expr { span: inner(1).span, blocks: vec![inner(1)] }),
        ],
        span: Span::new(at(NESTED, "{", 0), NESTED.len()),
    }
}

#[test]
fn declaration_only_rename() {
    let r = rename_in_item(&text(FOO), &foo_item(), &b"x".to_vec(), &b"xxx".to_vec());
    assert_eq!(rewritten(r), "fn foo() { let xxx = 1; let y = x + 1; }");
}

#[test]
fn absent_binding_is_no_match() {
    let r = rename_in_item(&text(FOO), &foo_item(), &b"z".to_vec(), &b"q".to_vec());
    assert_eq!(r, Ok(RewriteOutcome::Unchanged));
    assert_eq!(locate_in_item(&foo_item(), &b"z".to_vec()), vec![]);
    assert_eq!(plan_splices(&vec![], &b"q".to_vec()), Err(PlanError::NoMatch));
}

#[test]
fn disjoint_nested_blocks_both_renamed() {
    let body = nested_body();
    let spans = locate_in_block(&body, &b"x".to_vec());
    assert_eq!(spans.len(), 2);
    assert!(spans[0].lo < spans[1].lo);
    let plan = plan_splices(&spans, &b"q".to_vec()).unwrap();
    assert_eq!(plan.len(), 2);
    assert!(plan[0].continue_from <= plan[1].keep_to);
    let r = rename(&text(NESTED), &body, whole(NESTED), &b"x".to_vec(), &b"q".to_vec());
    assert_eq!(rewritten(r), "fn f() { { let q = 1; } { let q = 2; } }");
}

#[test]
fn identity_rename_reproduces_input() {
    let r = rename_in_item(&text(FOO), &foo_item(), &b"x".to_vec(), &b"x".to_vec());
    assert_eq!(rewritten(r), FOO);
    let r = rename(&text(NESTED), &nested_body(), whole(NESTED), &b"x".to_vec(), &b"x".to_vec());
    assert_eq!(rewritten(r), NESTED);
}

#[test]
fn bytes_outside_identifiers_are_kept() {
    let out = rewritten(rename_in_item(&text(FOO), &foo_item(), &b"x".to_vec(), &b"longer".to_vec()));
    let x = at(FOO, "let x", 4);
    assert_eq!(&out[..x], &FOO[..x]);
    assert_eq!(&out[x + "longer".len()..], &FOO[x + 1..]);
    assert_eq!(&out[x..x + "longer".len()], "longer");
}

#[test]
fn plan_is_sorted_and_non_overlapping() {
    let spans = vec![Span::new(20, 23), Span::new(2, 3), Span::new(10, 14)];
    let plan = plan_splices(&spans, &b"v".to_vec()).unwrap();
    let bounds: Vec<(usize, usize)> = plan.iter().map(|s| (s.keep_to, s.continue_from)).collect();
    assert_eq!(bounds, vec![(2, 3), (10, 14), (20, 23)]);
    for w in plan.windows(2) {
        assert!(w[0].continue_from <= w[1].keep_to);
        assert!(w[0].keep_to < w[1].keep_to);
    }
    assert!(plan.iter().all(|s| s.new_text == b"v".to_vec()));
}

#[test]
fn adjacent_spans_do_not_clash() {
    let spans = vec![Span::new(3, 5), Span::new(5, 7)];
    assert!(!has_clash(&spans));
    assert_eq!(plan_splices(&spans, &b"ab".to_vec()).unwrap().len(), 2);
}

#[test]
fn intersecting_spans_are_an_overlap() {
    assert!(has_clash(&vec![Span::new(3, 6), Span::new(5, 7)]));
    assert_eq!(plan_splices(&vec![Span::new(3, 6), Span::new(5, 7)], &b"a".to_vec()), Err(PlanError::Overlap));
    assert_eq!(plan_splices(&vec![Span::new(4, 4), Span::new(4, 4)], &b"a".to_vec()), Err(PlanError::Overlap));
    let src = "fn g() { let ab = 1; }";
    let lo = at(src, "ab", 0);
    let body = Block {
        stmts: vec![
            let_stmt("ab", lo, Span::new(lo - 4, lo + 6), None),
            let_stmt("ab", lo + 1, Span::new(lo - 4, lo + 6), None),
        ],
        span: Span::new(at(src, "{", 0), src.len()),
    };
    let r = rename(&text(src), &body, whole(src), &b"ab".to_vec(), &b"c".to_vec());
    assert_eq!(r, Err(CoreError::Overlap));
}

#[test]
fn span_outside_source_is_a_lookup_error() {
    let t = text("abc");
    assert_eq!(t.span_to_text(Span::new(1, 3)), Ok(b"bc".to_vec()));
    assert_eq!(t.span_to_text(Span::new(3, 3)), Ok(vec![]));
    assert_eq!(t.span_to_text(Span::new(2, 4)), Err(LookupError { span: Span::new(2, 4) }));
    assert_eq!(t.span_to_text(Span::new(2, 1)), Err(LookupError { span: Span::new(2, 1) }));
    let r = rename(&text(FOO), &nested_like_foo(), Span::new(0, FOO.len() + 5), &b"x".to_vec(), &b"q".to_vec());
    assert!(matches!(r, Err(CoreError::Lookup(_))));
}

fn nested_like_foo() -> Block {
    match foo_item().kind {
        ItemKind::Fn { body } => body,
        ItemKind::Other => unreachable!(),
    }
}

#[test]
fn binding_outside_enclosing_span_is_a_lookup_error() {
    let body = nested_like_foo();
    let r = rename(&text(FOO), &body, Span::new(at(FOO, "let y", 0), FOO.len()), &b"x".to_vec(), &b"q".to_vec());
    assert!(matches!(r, Err(CoreError::Lookup(_))));
}

#[test]
fn malformed_binding_span_is_a_lookup_error() {
    let body = Block {
        stmts: vec![Stmt::Local(Local {
            pat: Pat::Ident { name: b"x".to_vec(), span: Span::new(5, 4) },
            init: None,
            span: Span::new(0, 6),
        })],
        span: Span::new(0, 6),
    };
    let r = rename(&text("let x;"), &body, Span::new(0, 6), &b"x".to_vec(), &b"y".to_vec());
    assert_eq!(r, Err(CoreError::Lookup(LookupError { span: Span::new(5, 4) })));
}

#[test]
fn identifiers_at_both_ends_of_the_region() {
    let src = "x+x";
    let body = Block {
        stmts: vec![let_stmt("x", 0, Span::new(0, 1), None), let_stmt("x", 2, Span::new(2, 3), None)],
        span: whole(src),
    };
    let r = rename(&text(src), &body, whole(src), &b"x".to_vec(), &b"yy".to_vec());
    assert_eq!(rewritten(r), "yy+yy");
}

#[test]
fn empty_replacement_removes_the_identifier() {
    let r = rename_in_item(&text(FOO), &foo_item(), &b"y".to_vec(), &vec![]);
    assert_eq!(rewritten(r), "fn foo() { let x = 1; let  = x + 1; }");
}

#[test]
fn enclosing_region_is_all_that_is_rendered() {
    let region = Span::new(at(FOO, "let x", 0), at(FOO, "1;", 2));
    let splices = vec![SplicePosition { keep_to: at(FOO, "let x", 4), new_text: b"abc".to_vec(), continue_from: at(FOO, "let x", 5) }];
    assert_eq!(str_after_splice(&text(FOO), region, &splices), Ok(b"let abc = 1;".to_vec()));
    let bad = Span::new(at(FOO, "x =", 1), FOO.len());
    assert!(str_after_splice(&text(FOO), bad, &splices).is_err());
}

#[test]
fn bindings_in_initializer_blocks_are_found_in_order() {
    let src = "fn h() { let x = { let x = 2; x }; }";
    let outer = nth_at(src, "let x", 0, 4);
    let inner = nth_at(src, "let x", 1, 4);
    let init_block = Block {
        stmts: vec![
            let_stmt("x", inner, Span::new(inner - 4, inner + 6), None),
            Stmt::Other(Span::new(inner + 7, inner + 8)),
        ],
        span: Span::new(at(src, "{ let", 0), at(src, "x }", 3)),
    };
    let init = Expr { span: init_block.span, blocks: vec![init_block] };
    let body = Block {
        stmts: vec![let_stmt("x", outer, Span::new(outer - 4, at(src, "};", 2)), Some(init))],
        span: Span::new(at(src, "{", 0), src.len()),
    };
    let spans = locate_in_block(&body, &b"x".to_vec());
    assert_eq!(spans, vec![Span::new(outer, outer + 1), Span::new(inner, inner + 1)]);
    let r = rename(&text(src), &body, whole(src), &b"x".to_vec(), &b"w".to_vec());
    assert_eq!(rewritten(r), "fn h() { let w = { let w = 2; x }; }");
}

#[test]
fn nested_items_and_other_patterns_are_not_searched() {
    let src = "fn k() { fn n() { let x = 1; } let (x, y) = p; }";
    let inner_fn = at(src, "fn n", 0);
    let tuple = at(src, "let (", 0);
    let body = Block {
        stmts: vec![
            Stmt::Item(Span::new(inner_fn, at(src, "} let", 1))),
            Stmt::Local(Local { pat: Pat::Other { span: Span::new(tuple + 4, tuple + 10) }, init: None, span: Span::new(tuple, src.len() - 2) }),
        ],
        span: Span::new(at(src, "{", 0), src.len()),
    };
    assert_eq!(locate_in_block(&body, &b"x".to_vec()), vec![]);
    let other = Item { kind: ItemKind::Other, span: whole(src) };
    assert_eq!(rename_in_item(&text(src), &other, &b"x".to_vec(), &b"z".to_vec()), Ok(RewriteOutcome::Unchanged));
}

#[test]
fn rename_local_plans_its_own_binding() {
    let l = Local { pat: Pat::Ident { name: b"x".to_vec(), span: Span::new(4, 5) }, init: None, span: Span::new(0, 10) };
    let sp = l.rename_local(&b"x".to_vec(), &b"xxx".to_vec());
    assert_eq!(sp, vec![SplicePosition { keep_to: 4, new_text: b"xxx".to_vec(), continue_from: 5 }]);
    assert_eq!(l.rename_local(&b"y".to_vec(), &b"xxx".to_vec()), vec![]);
}

#[test]
fn names_compare_byte_for_byte() {
    assert!(same_name(&b"abc".to_vec(), &b"abc".to_vec()));
    assert!(!same_name(&b"abc".to_vec(), &b"abd".to_vec()));
    assert!(!same_name(&b"ab".to_vec(), &b"abc".to_vec()));
    assert!(same_name(&vec![], &vec![]));
}
