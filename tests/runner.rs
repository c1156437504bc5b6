use cargo_up::preload::{Decl, DeclKind, Library};
use cargo_up::rules::{InsertBefore, Version};
use cargo_up::runner::{Outcome, RunError, Runner, SourceFile};
use cargo_up::syntax::{Ident, Node, NodeKind, PathTarget, RecordField};
use cargo_up::versioning::SemVer;

fn chars(s: &str) -> Vec<char> {
    s.chars().collect()
}

fn text(v: &[char]) -> String {
    v.iter().collect()
}

/// The identifier `word` at its first occurrence in `src`, by character.
fn ident_in(src: &str, word: &str) -> Ident {
    let byte = src.find(word).unwrap();
    let start = src[..byte].chars().count();
    Ident { text: chars(word), start, end: start + word.chars().count() }
}

fn widget_lib() -> Library {
    Library {
        name: chars("widgets"),
        decls: vec![
            Decl { id: 1, kind: DeclKind::Method, owner: chars("Widget") },
            Decl { id: 2, kind: DeclKind::Member, owner: chars("Point") },
            Decl { id: 3, kind: DeclKind::Variant, owner: chars("Shape") },
            Decl { id: 4, kind: DeclKind::Method, owner: chars("Widget") },
        ],
    }
}

fn widget_version() -> Version<InsertBefore> {
    Version::new(SemVer::new(0, 3, 0))
        .rename_method("Widget", "old_method", "new_method")
        .rename_method("Widget", "build", "construct")
        .rename_member("Point", "x", "horizontal")
        .rename_variant("Shape", "Circle", "Round")
}

fn rewrite(runner: &Runner<InsertBefore>, src: &str, nodes: Vec<Node>) -> String {
    let files = vec![SourceFile { nodes }];
    let from = SemVer::new(0, 2, 0);
    let to = SemVer::new(0, 3, 0);
    match runner.run("widgets", &from, &to, &vec![widget_lib()], &files) {
        Ok(Outcome::Rewrite(patches)) => {
            assert_eq!(patches.len(), 1);
            text(&patches[0].apply(&chars(src)).unwrap())
        }
        other => panic!("unexpected outcome {:?}", other),
    }
}

#[test]
fn end_to_end_method_rename() {
    let src = "fn f(value: Widget) { value.old_method(); }";
    let runner = Runner::new().version(widget_version());
    let nodes = vec![Node::MethodCall { name: ident_in(src, "old_method"), callee: Some(1) }];
    assert_eq!(rewrite(&runner, src, nodes), "fn f(value: Widget) { value.new_method(); }");
}

#[test]
fn shorthand_record_literal_expands() {
    let src = "let p = Point { x };";
    let runner = Runner::new().version(widget_version());
    let field = RecordField {
        name: ident_in(src, "x"),
        shorthand: Some(ident_in(src, "x")),
        target: Some(2),
    };
    let out = rewrite(&runner, src, vec![Node::RecordExpr, Node::RecordExprField(field)]);
    assert_eq!(out, "let p = Point { horizontal: x };");
}

#[test]
fn shorthand_record_pattern_expands() {
    let src = "let Point { ref x } = p;";
    let runner = Runner::new().version(widget_version());
    let field = RecordField {
        name: ident_in(src, "x"),
        shorthand: Some(ident_in(src, "ref x")),
        target: Some(2),
    };
    let out = rewrite(&runner, src, vec![Node::RecordPat, Node::RecordPatField(field)]);
    assert_eq!(out, "let Point { horizontal: ref x } = p;");
}

#[test]
fn explicit_field_renames_only_name() {
    let src = "let p = Point { x: x + 1 };";
    let runner = Runner::new().version(widget_version());
    let field = RecordField { name: ident_in(src, "x"), shorthand: None, target: Some(2) };
    let out = rewrite(&runner, src, vec![Node::RecordExprField(field)]);
    assert_eq!(out, "let p = Point { horizontal: x + 1 };");
}

#[test]
fn field_access_renamed() {
    let src = "p.x + q.y";
    let runner = Runner::new().version(widget_version());
    let nodes = vec![
        Node::Field { name: ident_in(src, "x"), target: Some(2) },
        Node::Field { name: ident_in(src, "y"), target: Some(2) },
    ];
    assert_eq!(rewrite(&runner, src, nodes), "p.horizontal + q.y");
}

#[test]
fn path_to_variant_and_function() {
    let src = "let s = Shape::Circle; Widget::build();";
    let runner = Runner::new().version(widget_version());
    let nodes = vec![
        Node::Path { name: ident_in(src, "Circle"), target: PathTarget::Variant(3) },
        Node::Call,
        Node::Path { name: ident_in(src, "build"), target: PathTarget::Function(4) },
    ];
    assert_eq!(rewrite(&runner, src, nodes), "let s = Shape::Round; Widget::construct();");
}

#[test]
fn unrelated_symbol_with_same_text_untouched() {
    let src = "let old_method = 1; other.old_method(); value.old_method();";
    let runner = Runner::new().version(widget_version());
    let nodes = vec![
        Node::Path { name: ident_in(src, "old_method"), target: PathTarget::Other },
        Node::MethodCall {
            name: Ident { text: chars("old_method"), start: 26, end: 36 },
            callee: Some(99),
        },
        Node::MethodCall {
            name: Ident { text: chars("old_method"), start: 46, end: 56 },
            callee: None,
        },
    ];
    assert_eq!(rewrite(&runner, src, nodes), src);
}

#[test]
fn no_matching_rule_keeps_file_identical() {
    let src = "fn main() { thing.frobnicate(); }";
    let runner = Runner::new().version(widget_version());
    let nodes = vec![Node::MethodCall { name: ident_in(src, "frobnicate"), callee: Some(1) }];
    assert_eq!(rewrite(&runner, src, nodes), src);
}

#[test]
fn two_edits_in_one_file() {
    let src = "value.old_method(); p.x;";
    let runner = Runner::new().version(widget_version());
    let nodes = vec![
        Node::MethodCall { name: ident_in(src, "old_method"), callee: Some(1) },
        Node::Field { name: Ident { text: chars("x"), start: 22, end: 23 }, target: Some(2) },
    ];
    assert_eq!(rewrite(&runner, src, nodes), "value.new_method(); p.horizontal;");
}

#[test]
fn below_minimum_fails() {
    let runner = Runner::<InsertBefore>::new().minimum("1.0.0").unwrap().version(widget_version());
    let from = SemVer::parse("0.9.0").unwrap();
    let to = SemVer::new(0, 3, 0);
    let files = vec![SourceFile { nodes: vec![] }];
    match runner.run("widgets", &from, &to, &vec![widget_lib()], &files) {
        Err(RunError::NotMinimum { dep, minimum }) => {
            assert_eq!(text(&dep), "widgets");
            assert_eq!((minimum.major, minimum.minor, minimum.patch), (1, 0, 0));
        }
        other => panic!("unexpected outcome {:?}", other),
    }
}

#[test]
fn at_minimum_runs() {
    let runner = Runner::<InsertBefore>::new().minimum("1.0.0").unwrap().version(widget_version());
    let from = SemVer::new(1, 0, 0);
    let to = SemVer::new(0, 3, 0);
    let out = runner.run("widgets", &from, &to, &vec![], &vec![]).unwrap();
    assert!(matches!(out, Outcome::Rewrite(ref p) if p.is_empty()));
}

#[test]
fn bad_minimum_is_rejected() {
    assert!(Runner::<InsertBefore>::new().minimum("one.two").is_err());
}

#[test]
fn unknown_target_is_no_op() {
    let runner = Runner::new().version(widget_version());
    let from = SemVer::new(0, 2, 0);
    let to = SemVer::new(0, 4, 0);
    let files = vec![SourceFile { nodes: vec![] }];
    let out = runner.run("widgets", &from, &to, &vec![widget_lib()], &files).unwrap();
    assert!(matches!(out, Outcome::NoChanges));
}

#[test]
fn no_changes_takes_precedence_over_gate() {
    let runner = Runner::<InsertBefore>::new().minimum("1.0.0").unwrap().version(widget_version());
    let out = runner
        .run("widgets", &SemVer::new(0, 1, 0), &SemVer::new(5, 0, 0), &vec![], &vec![])
        .unwrap();
    assert!(matches!(out, Outcome::NoChanges));
}

#[test]
fn library_not_named_is_not_preloaded() {
    let src = "value.old_method();";
    let runner = Runner::new().version(widget_version());
    let files = vec![SourceFile {
        nodes: vec![Node::MethodCall { name: ident_in(src, "old_method"), callee: Some(1) }],
    }];
    let out = runner
        .run("gadgets", &SemVer::new(0, 2, 0), &SemVer::new(0, 3, 0), &vec![widget_lib()], &files)
        .unwrap();
    match out {
        Outcome::Rewrite(p) => assert_eq!(text(&p[0].apply(&chars(src)).unwrap()), src),
        Outcome::NoChanges => panic!("rules are registered"),
    }
}

#[test]
fn peer_library_is_preloaded_by_normalized_name() {
    let src = "value.old_method();";
    let version = widget_version().peer("widget_core");
    let runner = Runner::new().version(version);
    let mut lib = widget_lib();
    lib.name = chars("widget-core");
    let files = vec![SourceFile {
        nodes: vec![Node::MethodCall { name: ident_in(src, "old_method"), callee: Some(1) }],
    }];
    let out = runner
        .run("widgets", &SemVer::new(0, 2, 0), &SemVer::new(0, 3, 0), &vec![lib], &files)
        .unwrap();
    match out {
        Outcome::Rewrite(p) => {
            assert_eq!(text(&p[0].apply(&chars(src)).unwrap()), "value.new_method();")
        }
        Outcome::NoChanges => panic!("rules are registered"),
    }
}

#[test]
fn later_version_registration_replaces_earlier() {
    let src = "value.old_method();";
    let first = Version::new(SemVer::new(0, 3, 0)).rename_method("Widget", "old_method", "first");
    let runner = Runner::new().version(first).version(widget_version());
    let nodes = vec![Node::MethodCall { name: ident_in(src, "old_method"), callee: Some(1) }];
    assert_eq!(rewrite(&runner, src, nodes), "value.new_method();");
}

#[test]
fn hooks_run_before_renames() {
    let src = "value.old_method();";
    let version = Version::new(SemVer::new(0, 3, 0))
        .rename_method("Widget", "old_method", "new_method")
        .hook(InsertBefore { kind: NodeKind::MethodCall, text: chars("turbo::") })
        .hook(InsertBefore { kind: NodeKind::Field, text: chars("unused") });
    let runner = Runner::new().version(version);
    let files = vec![SourceFile {
        nodes: vec![Node::MethodCall { name: ident_in(src, "old_method"), callee: Some(1) }],
    }];
    let out = runner
        .run("widgets", &SemVer::new(0, 2, 0), &SemVer::new(0, 3, 0), &vec![widget_lib()], &files)
        .unwrap();
    match out {
        // the hook's insertion comes first, and the rename still applies
        Outcome::Rewrite(p) => {
            assert_eq!(text(&p[0].apply(&chars(src)).unwrap()), "value.turbo::new_method();")
        }
        Outcome::NoChanges => panic!("rules are registered"),
    }
}

#[test]
fn every_file_gets_a_patch() {
    let a = "a.old_method();";
    let b = "b.c;";
    let runner = Runner::new().version(widget_version());
    let files = vec![
        SourceFile {
            nodes: vec![Node::MethodCall { name: ident_in(a, "old_method"), callee: Some(1) }],
        },
        SourceFile { nodes: vec![] },
    ];
    let out = runner
        .run("widgets", &SemVer::new(0, 2, 0), &SemVer::new(0, 3, 0), &vec![widget_lib()], &files)
        .unwrap();
    match out {
        Outcome::Rewrite(p) => {
            assert_eq!(p.len(), 2);
            assert_eq!(text(&p[0].apply(&chars(a)).unwrap()), "a.new_method();");
            assert_eq!(text(&p[1].apply(&chars(b)).unwrap()), b);
        }
        Outcome::NoChanges => panic!("rules are registered"),
    }
}
