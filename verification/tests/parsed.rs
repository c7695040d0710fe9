use ide_diagnostics::collect::{diagnostics, try_diagnostics, SyntaxError};
use ide_diagnostics::diagnostic::{Diagnostic, FileId, Severity, SourceRootId};
use ide_diagnostics::diff::{diff, is_alike, is_nested};
use ide_diagnostics::edit::{AtomTextEdit, TextEdit};
use ide_diagnostics::edit::TextRange;
use ide_diagnostics::fixes::{FieldName, RawDiagnostic, RawKind};
use ide_diagnostics::reconcile::{ExpansionMap, FileOrigin, InFile};
use ide_diagnostics::syntax::{SyntaxElement, SyntaxKind, SyntaxTree};
use ra_syntax::{ast, AstNode, File, SyntaxNodeRef, WalkEvent};

fn kind_of(node: SyntaxNodeRef) -> SyntaxKind {
    match node.kind() {
        ra_syntax::SyntaxKind::USE_TREE_LIST => SyntaxKind::UseTreeList,
        ra_syntax::SyntaxKind::USE_TREE => SyntaxKind::UseTree,
        ra_syntax::SyntaxKind::PATH => SyntaxKind::Path,
        ra_syntax::SyntaxKind::PATH_SEGMENT => SyntaxKind::PathSegment,
        ra_syntax::SyntaxKind::SELF_KW => SyntaxKind::SelfKw,
        ra_syntax::SyntaxKind::STRUCT_LIT => SyntaxKind::RecordLit,
        ra_syntax::SyntaxKind::NAMED_FIELD_LIST => SyntaxKind::RecordFieldList,
        ra_syntax::SyntaxKind::NAMED_FIELD => SyntaxKind::RecordField,
        ra_syntax::SyntaxKind::NAME_REF => SyntaxKind::NameRef,
        ra_syntax::SyntaxKind::L_CURLY => SyntaxKind::LCurly,
        ra_syntax::SyntaxKind::R_CURLY => SyntaxKind::RCurly,
        ra_syntax::SyntaxKind::COMMA => SyntaxKind::Comma,
        ra_syntax::SyntaxKind::WHITESPACE => SyntaxKind::Whitespace,
        _ => {
            if ast::Expr::cast(node).is_some() {
                SyntaxKind::Expr
            } else {
                SyntaxKind::Other
            }
        }
    }
}

fn parse(text: &str) -> (SyntaxTree, Vec<SyntaxError>) {
    let file = File::parse(text);
    let mut tree = SyntaxTree { text: text.as_bytes().to_vec(), elements: Vec::new() };
    let mut open: Vec<usize> = Vec::new();
    for event in file.syntax().preorder() {
        match event {
            WalkEvent::Enter(node) => {
                let id = tree.elements.len();
                let parent = open.last().copied();
                tree.elements.push(SyntaxElement {
                    kind: kind_of(node),
                    range: TextRange {
                        start: u32::from(node.range().start()),
                        end: u32::from(node.range().end()),
                    },
                    parent,
                    children: Vec::new(),
                });
                if let Some(p) = parent {
                    tree.elements[p].children.push(id);
                }
                open.push(id);
            }
            WalkEvent::Leave(_) => {
                open.pop();
            }
        }
    }
    let errors = file
        .errors()
        .into_iter()
        .map(|err| {
            let offset = u32::from(err.offset);
            SyntaxError { range: TextRange { start: offset, end: offset }, message: err.msg }
        })
        .collect();
    assert!(tree.validate());
    (tree, errors)
}

fn one_file(text: &str, path: &str) -> ExpansionMap {
    ExpansionMap {
        files: vec![FileOrigin::Real {
            file_id: FileId(7),
            source_root: SourceRootId(3),
            path: path.as_bytes().to_vec(),
            len: text.len() as u32,
        }],
    }
}

fn collect(text: &str, raws: Vec<RawDiagnostic>) -> Vec<Diagnostic> {
    let (tree, errors) = parse(text);
    let map = one_file(text, "src/main.rs");
    let found = try_diagnostics(&map, 0, &tree, &errors, &Some(raws.clone())).unwrap();
    assert_eq!(found, diagnostics(&map, 0, &tree, &errors, &Some(raws)));
    for d in &found {
        assert!(d.range.start <= d.range.end && d.range.end as usize <= text.len());
    }
    found
}

fn apply_last(text: &str, found: &[Diagnostic]) -> String {
    let fix = found.last().unwrap().fix.as_ref().unwrap();
    assert_eq!(fix.source_file_edits.len(), 1);
    assert_eq!(fix.source_file_edits[0].file_id, FileId(7));
    let edit = &fix.source_file_edits[0].edit;
    assert!(edit.applies_to(text.len()));
    String::from_utf8(edit.apply(&text.as_bytes().to_vec())).unwrap()
}

fn list_range(tree: &SyntaxTree) -> TextRange {
    let list = tree.elements.iter().find(|e| e.kind == SyntaxKind::RecordFieldList).unwrap();
    list.range
}

fn missing(range: TextRange, names: &[&str]) -> RawDiagnostic {
    RawDiagnostic {
        anchor: InFile { file: 0, range },
        message: "Missing structure fields".to_string(),
        kind: RawKind::MissingFields {
            field_list: range,
            missed_fields: names.iter().map(|n| FieldName::Named(n.as_bytes().to_vec())).collect(),
        },
    }
}

#[test]
fn parsed_use_braces_are_removed() {
    for (before, after) in [
        ("use {b};", "use b;"),
        ("use a::{c};", "use a::c;"),
        ("use a::{self};", "use a;"),
        ("use a::{c, d::{e}};", "use a::{c, d::e};"),
    ] {
        let found = collect(before, Vec::new());
        assert_eq!(found.len(), 1, "{}", before);
        assert_eq!(found[0].message, "Unnecessary braces in use statement");
        assert_eq!(found[0].severity, Severity::WeakWarning);
        assert_eq!(found[0].fix.as_ref().unwrap().label, "Remove unnecessary braces");
        assert_eq!(apply_last(before, &found), after);
    }
}

#[test]
fn parsed_use_with_two_entries_is_left_alone() {
    assert!(collect("use a;\nuse a::{c, d::e};\n", Vec::new()).is_empty());
    assert!(collect("use a::{};\n", Vec::new()).is_empty());
}

#[test]
fn parsed_use_braces_range_is_the_list() {
    let found = collect("use a::{c};", Vec::new());
    assert_eq!(found[0].range, TextRange { start: 7, end: 10 });
}

#[test]
fn parsed_field_bound_to_itself_is_flagged() {
    let before = "fn main() {\n    let a = 1;\n    let b = 2;\n    A {\n        a: a,\n        b\n    }\n}\n";
    let after = "fn main() {\n    let a = 1;\n    let b = 2;\n    A {\n        a,\n        b\n    }\n}\n";
    let found = collect(before, Vec::new());
    assert_eq!(found.len(), 1);
    assert_eq!(found[0].message, "Shorthand struct initialization");
    assert_eq!(found[0].severity, Severity::WeakWarning);
    assert_eq!(found[0].fix.as_ref().unwrap().label, "Use struct shorthand initialization");
    let start = before.find("a: a").unwrap() as u32;
    assert_eq!(found[0].range, TextRange { start, end: start + 4 });
    assert_eq!(apply_last(before, &found), after);
}

#[test]
fn parsed_two_fields_bound_to_themselves_come_in_order() {
    let before = "fn f() { A { x: x, y: 1, z: z } }";
    let found = collect(before, Vec::new());
    assert_eq!(found.len(), 2);
    assert_eq!(apply_last(before, &found[..1]), "fn f() { A { x, y: 1, z: z } }");
    assert_eq!(apply_last(before, &found), "fn f() { A { x: x, y: 1, z } }");
}

#[test]
fn parsed_field_with_other_value_or_spread_is_left_alone() {
    assert!(collect("fn f() { A { a: \"hello\" } }", Vec::new()).is_empty());
    assert!(collect("fn f() { A { a: b } }", Vec::new()).is_empty());
    assert!(collect("fn f() { A { ..a } }", Vec::new()).is_empty());
    assert!(collect("fn f() { A { b, ..a } }", Vec::new()).is_empty());
}

#[test]
fn parsed_same_text_in_another_scope_is_still_flagged() {
    // The rule compares text, not meaning: a value that reads as the name
    // does is flagged whatever it refers to.
    let before = "fn f(a: u8) { { let a = 2; A { a: a } } }";
    assert_eq!(collect(before, Vec::new()).len(), 1);
}

#[test]
fn parsed_missing_fields_are_appended() {
    for (before, names, after) in [
        ("fn f() { let s = T{}; }", vec!["one", "two"], "fn f() { let s = T{ one: (), two: () }; }"),
        ("fn f() { let s = T{ two: 2 }; }", vec!["one"], "fn f() { let s = T{ two: 2, one: () }; }"),
        ("fn f() { let s = T{ two: 2, }; }", vec!["one"], "fn f() { let s = T{ two: 2, one: () }; }"),
        ("fn f() { let s = T {  }; }", vec!["l", "r"], "fn f() { let s = T { l: (), r: ()  }; }"),
        ("fn f() { let s = T{a:42}; }", vec!["b"], "fn f() { let s = T{a:42, b: ()}; }"),
    ] {
        let (tree, _) = parse(before);
        let range = list_range(&tree);
        let found = collect(before, vec![missing(range, &names)]);
        assert_eq!(found.len(), 1, "{}", before);
        assert_eq!(found[0].range, range);
        assert_eq!(found[0].severity, Severity::Error);
        assert_eq!(found[0].fix.as_ref().unwrap().label, "Fill struct fields");
        assert_eq!(apply_last(before, &found), after);
    }
}

#[test]
fn parsed_syntax_errors_come_first() {
    let text = "use {b};\nfn f( {";
    let (_, errors) = parse(text);
    assert!(!errors.is_empty());
    let found = collect(text, Vec::new());
    assert_eq!(found.len(), errors.len() + 1);
    for (d, e) in found.iter().zip(errors.iter()) {
        assert_eq!(d.message, format!("Syntax Error: {}", e.message));
        assert_eq!(d.range, e.range);
        assert_eq!(d.severity, Severity::Error);
        assert_eq!(d.fix, None);
    }
    assert_eq!(found.last().unwrap().severity, Severity::WeakWarning);
}

#[test]
fn parsed_collection_is_repeatable() {
    let text = "use a::{self};\nfn f() { A { x: x } }\nfn g( {";
    let (tree, _) = parse(text);
    let raws = vec![missing(list_range(&tree), &["y"])];
    assert_eq!(collect(text, raws.clone()), collect(text, raws));
}

fn atom(start: u32, end: u32, insert: &str) -> AtomTextEdit {
    AtomTextEdit { delete: TextRange { start, end }, insert: insert.as_bytes().to_vec() }
}

fn diff_files(before: &str, after: &str) -> TextEdit {
    let (from, _) = parse(before);
    let (to, _) = parse(after);
    assert!(is_nested(&from));
    assert!(is_nested(&to));
    let edit = diff(&from, 0, &to, 0);
    assert!(edit.applies_to(before.len()));
    assert_eq!(String::from_utf8(edit.apply(&from.text)).unwrap(), after);
    edit
}

#[test]
fn parsed_diff_replaces_the_smallest_subtree_that_differs() {
    assert_eq!(diff_files("use a::{b};", "use a::{c};").atoms, vec![atom(8, 9, "c")]);
    assert_eq!(
        diff_files("fn f() { g(1, 22) }", "fn f() { h(1, 333) }").atoms,
        vec![atom(9, 10, "h"), atom(14, 16, "333")]
    );
}

#[test]
fn parsed_diff_of_equal_files_is_empty() {
    assert!(diff_files("fn f() { g(1, 2) }\n", "fn f() { g(1, 2) }\n").atoms.is_empty());
    assert!(diff_files("", "").atoms.is_empty());
}

#[test]
fn parsed_diff_replaces_a_node_whose_children_differ_in_number() {
    let before = "fn f() { T{ two: 2 } }";
    let after = "fn f() { T{ two: 2, one: () } }";
    let edit = diff_files(before, after);
    assert_eq!(edit.atoms, vec![atom(10, 20, "{ two: 2, one: () }")]);
    let edit = diff_files("struct S;", "fn f() {}");
    assert_eq!(edit.atoms.len(), 1);
}

#[test]
fn parsed_diff_of_subtrees() {
    let (from, _) = parse("use a::{b};");
    let (to, _) = parse("use x::{b, c};");
    let list = |t: &SyntaxTree| t.elements.iter().position(|e| e.kind == SyntaxKind::UseTreeList).unwrap();
    let edit = diff(&from, list(&from), &to, list(&to));
    assert_eq!(edit.atoms, vec![atom(7, 10, "{b, c}")]);
    assert_eq!(edit.apply(&from.text), b"use a::{b, c};".to_vec());
    assert!(is_alike(&from, 0, &from, 0));
    assert!(!is_alike(&from, 0, &to, 0));
    assert!(!is_alike(&from, list(&from), &from, 0));
}

#[test]
fn parsed_trees_are_nested() {
    for text in ["", "use a::{self};", "fn f( {", "fn main() { A { a: a, ..b } }\n"] {
        let (tree, _) = parse(text);
        assert!(is_nested(&tree), "{}", text);
        if !tree.elements.is_empty() {
            assert_eq!(tree.elements[0].range, TextRange { start: 0, end: text.len() as u32 });
        }
    }
}

#[test]
fn parsed_macro_argument_holds_no_list_to_fill() {
    // The parser keeps the argument of a macro call as tokens, so the file
    // has no list of fields where the expansion has one: there is nothing
    // in the file that the fix could be built on.
    let text = "fn main() { let _x = id![Foo { a: 42 }]; }";
    let (tree, errors) = parse(text);
    let start = text.find("{ a").unwrap() as u32;
    let list = TextRange { start, end: start + 9 };
    let mut map = one_file(text, "src/main.rs");
    map.files.push(FileOrigin::Expansion { from_file: 0, from_range: list, len: 9 });
    let raws = vec![RawDiagnostic {
        anchor: InFile { file: 1, range: TextRange { start: 3, end: 9 } },
        message: "Missing structure fields".to_string(),
        kind: RawKind::MissingFields {
            field_list: TextRange { start: 3, end: 9 },
            missed_fields: vec![FieldName::Named(b"b".to_vec())],
        },
    }];
    let found = try_diagnostics(&map, 0, &tree, &errors, &Some(raws)).unwrap();
    let last = found.last().unwrap();
    assert_eq!(last.range, list);
    assert_eq!(last.fix, None);
}
