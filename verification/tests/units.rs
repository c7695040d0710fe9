use ide_diagnostics::collect::{
    check_anchor, check_anchors, check_errors, diagnostics, try_diagnostics, CollectError, DiagnosticSink, SyntaxError,
};
use ide_diagnostics::diagnostic::{
    Diagnostic, FileId, FileRange, FileSystemEdit, Severity, SourceChange, SourceFileEdit,
    SourceRootId,
};
use ide_diagnostics::diff::{diff, diff_into, is_nested};
use ide_diagnostics::edit::{extend_from_range, AtomTextEdit, TextEdit, TextEditBuilder, TextRange};
use ide_diagnostics::fixes::{
    any_tuple_index, fill_insertion, missing_fields_fix, module_file_path, push_fields,
    unresolved_module_fix, wrap_with_ok_fix, FieldName, RawDiagnostic, RawKind,
};
use ide_diagnostics::reconcile::{ExpansionMap, FileOrigin, InFile};
use ide_diagnostics::scanners::{
    check_struct_shorthand_initialization, check_unnecessary_braces_in_use_statement,
    replace_by_delete_and_insert, text_edit_for_remove_unnecessary_braces_with_self_in_use_statement,
    tuple_index,
};
use ide_diagnostics::syntax::{SyntaxElement, SyntaxKind, SyntaxTree};

fn r(start: u32, end: u32) -> TextRange {
    TextRange { start, end }
}

fn bytes(s: &str) -> Vec<u8> {
    s.as_bytes().to_vec()
}

fn atom(start: u32, end: u32, insert: &str) -> AtomTextEdit {
    AtomTextEdit { delete: r(start, end), insert: bytes(insert) }
}

fn tree(text: &str) -> SyntaxTree {
    SyntaxTree { text: bytes(text), elements: Vec::new() }
}

fn add(t: &mut SyntaxTree, parent: Option<usize>, kind: SyntaxKind, start: u32, end: u32) -> usize {
    let id = t.elements.len();
    t.elements.push(SyntaxElement { kind, range: r(start, end), parent, children: Vec::new() });
    if let Some(p) = parent {
        t.elements[p].children.push(id);
    }
    id
}

fn real_file(id: u32, root: u32, path: &str, len: u32) -> FileOrigin {
    FileOrigin::Real { file_id: FileId(id), source_root: SourceRootId(root), path: bytes(path), len }
}

fn expansion(from_file: usize, start: u32, end: u32, len: u32) -> FileOrigin {
    FileOrigin::Expansion { from_file, from_range: r(start, end), len }
}

fn nested() -> ExpansionMap {
    ExpansionMap {
        files: vec![
            real_file(4, 1, "src/a/b.rs", 10),
            expansion(0, 2, 6, 50),
            expansion(1, 5, 9, 30),
            real_file(5, 1, "lib.rs", 10),
            expansion(2, 1, 2, 8),
        ],
    }
}

#[test]
fn range_helpers() {
    assert_eq!(TextRange::new(2, 5), r(2, 5));
    assert_eq!(TextRange::empty(3), r(3, 3));
    assert_eq!(r(2, 5).len(), 3);
    assert!(r(3, 3).is_empty());
    assert!(!r(3, 4).is_empty());
    assert!(r(2, 5).touches(2));
    assert!(r(2, 5).touches(5));
    assert!(!r(2, 5).touches(6));
    assert!(!r(2, 5).touches(1));
}

#[test]
fn single_atom_edits() {
    let text = bytes("hello world");
    assert_eq!(TextEdit::delete(r(5, 11)).apply(&text), bytes("hello"));
    assert_eq!(TextEdit::insert(5, bytes(",")).apply(&text), bytes("hello, world"));
    assert_eq!(TextEdit::replace(r(0, 5), bytes("bye")).apply(&text), bytes("bye world"));
    assert_eq!(TextEdit::replace(r(0, 5), bytes("bye")).atoms, vec![atom(0, 5, "bye")]);
    assert_eq!(TextEdit::insert(11, bytes("!")).apply(&text), bytes("hello world!"));
    assert_eq!(TextEdit::delete(r(0, 11)).apply(&text), bytes(""));
}

#[test]
fn apply_takes_every_offset_in_the_unedited_text() {
    let text = bytes("0123456789");
    let mut b = TextEditBuilder::new();
    b.replace(r(8, 9), bytes("eight"));
    b.delete(r(0, 2));
    b.insert(5, bytes("-"));
    assert!(b.is_disjoint());
    let edit = b.finish();
    assert_eq!(edit.atoms, vec![atom(0, 2, ""), atom(5, 5, "-"), atom(8, 9, "eight")]);
    assert!(edit.applies_to(10));
    assert!(edit.applies_to(9));
    assert!(!edit.applies_to(8));
    assert_eq!(edit.apply(&text), bytes("234-567eight9"));
}

#[test]
fn empty_edit_changes_nothing() {
    let edit = TextEditBuilder::new().finish();
    assert!(edit.applies_to(0));
    assert_eq!(edit.apply(&bytes("abc")), bytes("abc"));
    assert_eq!(edit.apply(&bytes("")), bytes(""));
}

#[test]
fn builder_orders_by_start_then_end_and_keeps_ties_in_order() {
    let mut b = TextEditBuilder::new();
    b.insert(4, bytes("first"));
    b.delete(r(4, 6));
    b.insert(4, bytes("second"));
    b.insert(2, bytes("x"));
    assert_eq!(b.atoms, vec![atom(2, 2, "x"), atom(4, 4, "first"), atom(4, 4, "second"), atom(4, 6, "")]);
    assert!(b.is_disjoint());
    assert_eq!(b.finish().apply(&bytes("abcdefgh")), bytes("abxcdfirstsecondgh"));
}

#[test]
fn builder_sees_overlap() {
    let mut b = TextEditBuilder::new();
    b.delete(r(2, 6));
    b.delete(r(4, 8));
    assert!(!b.is_disjoint());
    let mut b = TextEditBuilder::new();
    b.delete(r(4, 8));
    b.delete(r(2, 4));
    assert!(b.is_disjoint());
}

#[test]
fn delete_and_insert_make_a_replacement() {
    let edit = replace_by_delete_and_insert(r(2, 4), bytes("XYZ"));
    assert_eq!(edit.atoms, vec![atom(2, 2, "XYZ"), atom(2, 4, "")]);
    assert_eq!(edit.apply(&bytes("abcdef")), bytes("abXYZef"));
    let edit = replace_by_delete_and_insert(r(2, 2), bytes("XYZ"));
    assert_eq!(edit.atoms, vec![atom(2, 2, ""), atom(2, 2, "XYZ")]);
    assert_eq!(edit.apply(&bytes("abcdef")), bytes("abXYZcdef"));
}

#[test]
fn extend_copies_the_range() {
    let mut buf = bytes("ab");
    extend_from_range(&mut buf, &bytes("012345"), 2, 4);
    assert_eq!(buf, bytes("ab23"));
    extend_from_range(&mut buf, &bytes("012345"), 3, 3);
    assert_eq!(buf, bytes("ab23"));
}

#[test]
fn source_change_builders() {
    let edit = TextEdit::delete(r(1, 2));
    let c = SourceChange::source_file_edit_from("label", FileId(3), edit.clone());
    assert_eq!(c.label, "label");
    assert_eq!(c.source_file_edits, vec![SourceFileEdit { file_id: FileId(3), edit: edit.clone() }]);
    assert!(c.file_system_edits.is_empty());
    assert_eq!(c.cursor_position, None);
    assert_eq!(c, SourceChange::source_file_edit("label", SourceFileEdit { file_id: FileId(3), edit }));
    let op = FileSystemEdit::CreateFile { source_root: SourceRootId(2), path: bytes("x.rs") };
    let c = SourceChange::file_system_edit("make", op.clone());
    assert_eq!(c.label, "make");
    assert!(c.source_file_edits.is_empty());
    assert_eq!(c.file_system_edits, vec![op]);
    assert_eq!(c.cursor_position, None);
}

#[test]
fn tree_queries() {
    let mut t = tree("ab,cd");
    let root = add(&mut t, None, SyntaxKind::Other, 0, 5);
    let a = add(&mut t, Some(root), SyntaxKind::NameRef, 0, 2);
    let comma = add(&mut t, Some(root), SyntaxKind::Comma, 2, 3);
    let c = add(&mut t, Some(root), SyntaxKind::NameRef, 3, 5);
    assert!(t.validate());
    assert_eq!(t.len(), 4);
    assert_eq!(t.kind(comma), SyntaxKind::Comma);
    assert_eq!(t.range(c), r(3, 5));
    assert_eq!(t.parent(c), Some(root));
    assert_eq!(t.parent(root), None);
    assert_eq!(t.text(a), bytes("ab"));
    assert_eq!(t.text(root), bytes("ab,cd"));
    assert!(!t.same_text(a, c));
    assert!(t.same_text(a, a));
    assert_eq!(t.first_child(root), Some(a));
    assert_eq!(t.first_child(a), None);
    assert_eq!(t.first_child_of_kind(root, SyntaxKind::Comma), Some(comma));
    assert_eq!(t.first_child_of_kind(root, SyntaxKind::NameRef), Some(a));
    assert_eq!(t.first_child_of_kind(root, SyntaxKind::Expr), None);
    assert_eq!(t.children_of_kind(root, SyntaxKind::NameRef), vec![a, c]);
    assert_eq!(t.children_of_kind(root, SyntaxKind::Expr), Vec::<usize>::new());
    assert_eq!(t.prev_sibling(a), None);
    assert_eq!(t.prev_sibling(comma), Some(a));
    assert_eq!(t.prev_sibling(c), Some(comma));
    assert_eq!(t.next_sibling(a), Some(comma));
    assert_eq!(t.next_sibling(c), None);
    assert_eq!(t.prev_sibling(root), None);
    assert_eq!(t.find(SyntaxKind::NameRef, r(3, 5)), Some(c));
    assert_eq!(t.find(SyntaxKind::NameRef, r(3, 4)), None);
    assert_eq!(t.find(SyntaxKind::Expr, r(3, 5)), None);
}

#[test]
fn same_text_compares_bytes() {
    let mut t = tree("abab ac");
    let root = add(&mut t, None, SyntaxKind::Other, 0, 7);
    let x = add(&mut t, Some(root), SyntaxKind::Other, 0, 2);
    let y = add(&mut t, Some(root), SyntaxKind::Other, 2, 4);
    let z = add(&mut t, Some(root), SyntaxKind::Other, 5, 7);
    assert!(t.same_text(x, y));
    assert!(!t.same_text(x, z));
    assert!(!t.same_text(x, root));
}

#[test]
fn tree_validation_rejects_what_is_out_of_bounds() {
    let mut t = tree("abc");
    add(&mut t, None, SyntaxKind::Other, 0, 4);
    assert!(!t.validate());
    let mut t = tree("abc");
    add(&mut t, None, SyntaxKind::Other, 2, 1);
    assert!(!t.validate());
    let mut t = tree("abc");
    add(&mut t, None, SyntaxKind::Other, 0, 3);
    t.elements[0].children.push(1);
    assert!(!t.validate());
    let mut t = tree("abc");
    add(&mut t, None, SyntaxKind::Other, 0, 3);
    t.elements[0].parent = Some(1);
    assert!(!t.validate());
    assert!(tree("").validate());
    // A child that names another element as its parent.
    let mut t = tree("abc");
    let root = add(&mut t, None, SyntaxKind::Other, 0, 3);
    let a = add(&mut t, Some(root), SyntaxKind::Other, 0, 1);
    add(&mut t, Some(root), SyntaxKind::Other, 1, 3);
    assert!(t.validate());
    t.elements[2].parent = Some(a);
    assert!(!t.validate());
    t.elements[2].parent = None;
    assert!(!t.validate());
    // Children that do not follow one another in the text.
    let mut t = tree("abc");
    let root = add(&mut t, None, SyntaxKind::Other, 0, 3);
    add(&mut t, Some(root), SyntaxKind::Other, 1, 3);
    add(&mut t, Some(root), SyntaxKind::Other, 0, 1);
    assert!(!t.validate());
    let mut t = tree("abc");
    let root = add(&mut t, None, SyntaxKind::Other, 0, 3);
    add(&mut t, Some(root), SyntaxKind::Other, 0, 2);
    add(&mut t, Some(root), SyntaxKind::Other, 1, 3);
    assert!(!t.validate());
    // A child that reaches beyond its parent.
    let mut t = tree("abc");
    let root = add(&mut t, None, SyntaxKind::Other, 0, 2);
    add(&mut t, Some(root), SyntaxKind::Other, 1, 3);
    assert!(!t.validate());
    // A child that stands before its parent in the arena.
    let mut t = tree("abc");
    add(&mut t, None, SyntaxKind::Other, 0, 3);
    add(&mut t, None, SyntaxKind::Other, 0, 3);
    t.elements[1].children.push(0);
    t.elements[0].parent = Some(1);
    assert!(!t.validate());
}

#[test]
fn tuple_positions() {
    assert!(tuple_index(&bytes("0")));
    assert!(tuple_index(&bytes("12")));
    assert!(!tuple_index(&bytes("")));
    assert!(!tuple_index(&bytes("a1")));
    assert!(!tuple_index(&bytes("1a")));
    assert!(!tuple_index(&bytes("+1")));
}

fn field(t: &mut SyntaxTree, list: usize, start: u32, name_len: u32, value_start: u32, end: u32) {
    let f = add(t, Some(list), SyntaxKind::RecordField, start, end);
    add(t, Some(f), SyntaxKind::NameRef, start, start + name_len);
    add(t, Some(f), SyntaxKind::Other, start + name_len, start + name_len + 1);
    add(t, Some(f), SyntaxKind::Expr, value_start, end);
}

#[test]
fn tuple_position_bound_to_itself_is_not_flagged() {
    let mut t = tree("A { 0: 0 }");
    let lit = add(&mut t, None, SyntaxKind::RecordLit, 0, 10);
    let list = add(&mut t, Some(lit), SyntaxKind::RecordFieldList, 2, 10);
    field(&mut t, list, 4, 1, 7, 8);
    assert!(t.validate());
    let mut acc = Vec::new();
    assert_eq!(check_struct_shorthand_initialization(&mut acc, FileId(0), &t, lit), Some(()));
    assert!(acc.is_empty());
}

#[test]
fn scanners_tell_whether_the_node_is_theirs() {
    let mut t = tree("A { a: a } B");
    let root = add(&mut t, None, SyntaxKind::Other, 0, 12);
    let lit = add(&mut t, Some(root), SyntaxKind::RecordLit, 0, 10);
    let list = add(&mut t, Some(lit), SyntaxKind::RecordFieldList, 2, 10);
    field(&mut t, list, 4, 1, 7, 8);
    let bare = add(&mut t, Some(root), SyntaxKind::RecordLit, 11, 12);
    assert!(t.validate());
    let mut acc = Vec::new();
    assert_eq!(check_struct_shorthand_initialization(&mut acc, FileId(9), &t, list), None);
    assert_eq!(check_struct_shorthand_initialization(&mut acc, FileId(9), &t, bare), None);
    assert_eq!(check_unnecessary_braces_in_use_statement(&mut acc, FileId(9), &t, lit), None);
    assert!(acc.is_empty());
    assert_eq!(check_struct_shorthand_initialization(&mut acc, FileId(9), &t, lit), Some(()));
    assert_eq!(
        acc,
        vec![Diagnostic {
            message: "Shorthand struct initialization".to_string(),
            range: r(4, 8),
            fix: Some(SourceChange {
                label: "Use struct shorthand initialization".to_string(),
                source_file_edits: vec![SourceFileEdit {
                    file_id: FileId(9),
                    edit: TextEdit { atoms: vec![atom(4, 4, "a"), atom(4, 8, "")] },
                }],
                file_system_edits: vec![],
                cursor_position: None,
            }),
            severity: Severity::WeakWarning,
        }]
    );
}

fn use_list(text: &str, entries: &[(u32, u32)]) -> (SyntaxTree, usize, Vec<usize>) {
    let len = text.len() as u32;
    let mut t = tree(text);
    let outer = add(&mut t, None, SyntaxKind::UseTree, 0, len);
    let open = text.find('{').unwrap() as u32;
    if open > 0 {
        add(&mut t, Some(outer), SyntaxKind::Path, 0, open - 2);
        add(&mut t, Some(outer), SyntaxKind::Other, open - 2, open);
    }
    let list = add(&mut t, Some(outer), SyntaxKind::UseTreeList, open, len);
    add(&mut t, Some(list), SyntaxKind::LCurly, open, open + 1);
    let mut trees = Vec::new();
    for (s, e) in entries {
        let u = add(&mut t, Some(list), SyntaxKind::UseTree, *s, *e);
        let p = add(&mut t, Some(u), SyntaxKind::Path, *s, *e);
        let seg = add(&mut t, Some(p), SyntaxKind::PathSegment, *s, *e);
        let kind = if &text[*s as usize..*e as usize] == "self" {
            SyntaxKind::SelfKw
        } else {
            SyntaxKind::NameRef
        };
        add(&mut t, Some(seg), kind, *s, *e);
        trees.push(u);
    }
    add(&mut t, Some(list), SyntaxKind::RCurly, len - 1, len);
    assert!(t.validate());
    (t, list, trees)
}

#[test]
fn braces_with_no_or_two_entries_are_kept() {
    let (t, list, _) = use_list("a::{}", &[]);
    let mut acc = Vec::new();
    assert_eq!(check_unnecessary_braces_in_use_statement(&mut acc, FileId(0), &t, list), Some(()));
    assert!(acc.is_empty());
    let (t, list, _) = use_list("a::{b,c}", &[(4, 5), (6, 7)]);
    assert_eq!(check_unnecessary_braces_in_use_statement(&mut acc, FileId(0), &t, list), Some(()));
    assert!(acc.is_empty());
}

#[test]
fn braces_around_self_go_with_the_separator() {
    let (t, list, trees) = use_list("a::{self}", &[(4, 8)]);
    let edit = text_edit_for_remove_unnecessary_braces_with_self_in_use_statement(&t, trees[0]);
    assert_eq!(edit, Some(TextEdit { atoms: vec![atom(1, 9, "")] }));
    let mut acc = Vec::new();
    check_unnecessary_braces_in_use_statement(&mut acc, FileId(2), &t, list);
    assert_eq!(acc.len(), 1);
    assert_eq!(acc[0].range, r(3, 9));
    let (t, _, trees) = use_list("a::{b}", &[(4, 5)]);
    assert_eq!(text_edit_for_remove_unnecessary_braces_with_self_in_use_statement(&t, trees[0]), None);
    // With nothing before the list there is no separator to remove.
    let (t, list, trees) = use_list("{self}", &[(1, 5)]);
    assert_eq!(text_edit_for_remove_unnecessary_braces_with_self_in_use_statement(&t, trees[0]), None);
    let mut acc = Vec::new();
    check_unnecessary_braces_in_use_statement(&mut acc, FileId(2), &t, list);
    let edit = &acc[0].fix.as_ref().unwrap().source_file_edits[0].edit;
    assert_eq!(edit.apply(&t.text), bytes("self"));
}

#[test]
fn ranges_walk_out_of_every_layer() {
    let map = nested();
    assert!(map.validate());
    let at = |file, start, end| map.original_range(InFile { file, range: r(start, end) });
    assert_eq!(at(0, 3, 4), FileRange { file_id: FileId(4), range: r(3, 4) });
    assert_eq!(at(1, 3, 4), FileRange { file_id: FileId(4), range: r(2, 6) });
    assert_eq!(at(2, 3, 4), FileRange { file_id: FileId(4), range: r(2, 6) });
    assert_eq!(at(4, 0, 8), FileRange { file_id: FileId(4), range: r(2, 6) });
    assert_eq!(at(3, 0, 8), FileRange { file_id: FileId(5), range: r(0, 8) });
    assert_eq!(map.original_file(4), 0);
    assert_eq!(map.original_file(3), 3);
    assert_eq!(map.original_file(0), 0);
}

#[test]
fn lineage_validation() {
    assert!(ExpansionMap { files: vec![] }.validate());
    assert!(!ExpansionMap { files: vec![expansion(0, 0, 1, 5)] }.validate());
    assert!(!ExpansionMap { files: vec![real_file(0, 0, "a.rs", 5), expansion(2, 0, 1, 5)] }.validate());
    assert!(!ExpansionMap { files: vec![real_file(0, 0, "a.rs", 5), expansion(0, 1, 1, 5)] }.validate());
    assert!(!ExpansionMap { files: vec![real_file(0, 0, "a.rs", 5), expansion(0, 4, 6, 5)] }.validate());
    assert!(ExpansionMap { files: vec![real_file(0, 0, "a.rs", 5), expansion(0, 4, 5, 50)] }.validate());
}

#[test]
fn module_files_stand_beside_the_declaring_file() {
    assert_eq!(module_file_path(&bytes("main.rs"), &bytes("foo")), bytes("foo.rs"));
    assert_eq!(module_file_path(&bytes("src/main.rs"), &bytes("foo")), bytes("src/foo.rs"));
    assert_eq!(module_file_path(&bytes("src/a/b.rs"), &bytes("foo")), bytes("src/a/foo.rs"));
    assert_eq!(module_file_path(&bytes(""), &bytes("foo")), bytes("foo.rs"));
    assert_eq!(module_file_path(&bytes("/main.rs"), &bytes("foo")), bytes("foo.rs"));
}

#[test]
fn unresolved_module_in_an_expansion_is_created_beside_the_real_file() {
    let map = nested();
    let fix = unresolved_module_fix(&map, 2, &bytes("gen")).unwrap();
    assert_eq!(
        fix.file_system_edits,
        vec![FileSystemEdit::CreateFile { source_root: SourceRootId(1), path: bytes("src/a/gen.rs") }]
    );
    assert!(fix.source_file_edits.is_empty());
    assert_eq!(unresolved_module_fix(&map, 2, &bytes("")), None);
}

#[test]
fn rendering_of_missing_fields() {
    let named = |s: &str| FieldName::Named(bytes(s));
    let mut out = bytes(">");
    push_fields(&mut out, &vec![named("a"), named("bc")]);
    assert_eq!(out, bytes(">a: (), bc: ()"));
    let mut out = Vec::new();
    push_fields(&mut out, &vec![]);
    assert_eq!(out, bytes(""));
    assert!(!any_tuple_index(&vec![named("a")]));
    assert!(any_tuple_index(&vec![named("a"), FieldName::TupleIndex(0)]));
    assert!(!any_tuple_index(&vec![]));
}

fn record(text: &str) -> (SyntaxTree, usize) {
    let mut t = tree(text);
    let len = text.len() as u32;
    let list = add(&mut t, None, SyntaxKind::RecordFieldList, 0, len);
    add(&mut t, Some(list), SyntaxKind::LCurly, 0, 1);
    add(&mut t, Some(list), SyntaxKind::RCurly, len - 1, len);
    (t, list)
}

#[test]
fn missing_fields_fix_declines() {
    let (t, _) = record("{}");
    let named = vec![FieldName::Named(bytes("a"))];
    let fix = missing_fields_fix(&t, FileId(1), r(0, 2), &named).unwrap();
    assert_eq!(fix.label, "Fill struct fields");
    assert_eq!(fix.source_file_edits[0].edit.atoms, vec![atom(1, 1, " a: () ")]);
    assert_eq!(fill_insertion(&t, 0, &named), Some((1, bytes(" a: () "))));
    // A position in a tuple among the names: no partial fix.
    let mixed = vec![FieldName::Named(bytes("a")), FieldName::TupleIndex(0)];
    assert_eq!(missing_fields_fix(&t, FileId(1), r(0, 2), &mixed), None);
    // Nothing to add.
    assert_eq!(missing_fields_fix(&t, FileId(1), r(0, 2), &vec![]), None);
    // No list of fields at that range.
    assert_eq!(missing_fields_fix(&t, FileId(1), r(0, 1), &named), None);
    // A list without an opening brace.
    let mut broken = tree("}");
    add(&mut broken, None, SyntaxKind::RecordFieldList, 0, 1);
    assert_eq!(missing_fields_fix(&broken, FileId(1), r(0, 1), &named), None);
}

#[test]
fn wrap_fix() {
    let t = tree("fn f() { 1 }");
    let fix = wrap_with_ok_fix(&t, FileId(6), r(9, 10)).unwrap();
    assert_eq!(fix.label, "Wrap with ok");
    assert_eq!(
        fix.source_file_edits,
        vec![SourceFileEdit { file_id: FileId(6), edit: TextEdit { atoms: vec![atom(9, 10, "Ok(1)")] } }]
    );
    assert_eq!(fix.source_file_edits[0].edit.apply(&t.text), bytes("fn f() { Ok(1) }"));
    assert_eq!(wrap_with_ok_fix(&t, FileId(6), r(9, 13)), None);
    assert_eq!(wrap_with_ok_fix(&t, FileId(6), r(10, 9)), None);
}

fn raw(file: usize, start: u32, end: u32, message: &str, kind: RawKind) -> RawDiagnostic {
    RawDiagnostic { anchor: InFile { file, range: r(start, end) }, message: message.to_string(), kind }
}

#[test]
fn kinds_without_a_handler_get_message_and_range() {
    let map = nested();
    let t = tree("0123456789");
    let raws = vec![
        raw(2, 0, 3, "plain", RawKind::Other),
        raw(0, 1, 2, "missing match arm", RawKind::MissingMatchArms),
    ];
    assert!(check_anchors(&map, 0, &raws));
    let found = diagnostics(&map, 0, &t, &Vec::new(), &Some(raws));
    assert_eq!(
        found,
        vec![
            Diagnostic {
                message: "plain".to_string(),
                range: r(2, 6),
                fix: None,
                severity: Severity::Error,
            },
            Diagnostic {
                message: "missing match arm".to_string(),
                range: r(1, 2),
                fix: None,
                severity: Severity::Error,
            },
        ]
    );
}

#[test]
fn text_fixes_are_built_in_the_requested_file() {
    let map = nested();
    let t = tree("0123456789");
    let wrap = |file, start, end| {
        raw(file, start, end, "wrap", RawKind::MissingOkInTailExpr { expr: r(start, end) })
    };
    let raws = vec![wrap(0, 2, 4), wrap(1, 0, 3), wrap(4, 1, 2)];
    assert!(check_anchors(&map, 0, &raws));
    let found = diagnostics(&map, 0, &t, &Vec::new(), &Some(raws));
    assert_eq!(found.len(), 3);
    let edit = &found[0].fix.as_ref().unwrap().source_file_edits[0];
    assert_eq!(edit.file_id, FileId(4));
    assert_eq!(edit.edit.apply(&t.text), bytes("01Ok(23)456789"));
    assert_eq!(found[0].range, r(2, 4));
    // Anchored in what an expansion produced: the fix wraps the text that
    // it was produced from, one layer out and three layers out.
    for d in &found[1..] {
        let edit = &d.fix.as_ref().unwrap().source_file_edits[0];
        assert_eq!(edit.file_id, FileId(4));
        assert_eq!(edit.edit.atoms, vec![atom(2, 6, "Ok(2345)")]);
        assert_eq!(edit.edit.apply(&t.text), bytes("01Ok(2345)6789"));
        assert_eq!(d.range, r(2, 6));
    }
    // A lineage that starts in another file: no edit of this file.
    let sink = DiagnosticSink::new(&map, 0, &t, Vec::new());
    assert_eq!(sink.fix(&wrap(3, 2, 4)), None);
    let fields = RawKind::MissingFields {
        field_list: r(0, 2),
        missed_fields: vec![FieldName::Named(bytes("a"))],
    };
    assert_eq!(sink.fix(&raw(3, 0, 2, "m", fields)), None);
}

#[test]
fn missing_fields_in_an_expansion_are_filled_in_the_file() {
    let mut t = tree("m!(T{x:1})");
    let root = add(&mut t, None, SyntaxKind::Other, 0, 10);
    add(&mut t, Some(root), SyntaxKind::Other, 0, 3);
    let lit = add(&mut t, Some(root), SyntaxKind::RecordLit, 3, 9);
    add(&mut t, Some(lit), SyntaxKind::Path, 3, 4);
    let list = add(&mut t, Some(lit), SyntaxKind::RecordFieldList, 4, 9);
    add(&mut t, Some(list), SyntaxKind::LCurly, 4, 5);
    field(&mut t, list, 5, 1, 7, 8);
    add(&mut t, Some(list), SyntaxKind::RCurly, 8, 9);
    add(&mut t, Some(root), SyntaxKind::Other, 9, 10);
    assert!(t.validate());
    let map = ExpansionMap {
        files: vec![real_file(1, 0, "main.rs", 10), expansion(0, 4, 9, 6), expansion(1, 1, 6, 5)],
    };
    let kind = |range| RawKind::MissingFields {
        field_list: range,
        missed_fields: vec![FieldName::Named(bytes("y"))],
    };
    let raws = vec![raw(2, 0, 5, "missing", kind(r(0, 5))), raw(0, 4, 9, "missing", kind(r(4, 9)))];
    let found = try_diagnostics(&map, 0, &t, &Vec::new(), &Some(raws)).unwrap();
    assert_eq!(found.len(), 2);
    for d in &found {
        assert_eq!(d.range, r(4, 9));
        let edit = &d.fix.as_ref().unwrap().source_file_edits[0];
        assert_eq!(edit.file_id, FileId(1));
        assert_eq!(edit.edit.atoms, vec![atom(8, 8, ", y: ()")]);
        assert_eq!(edit.edit.apply(&t.text), bytes("m!(T{x:1, y: ()})"));
    }
    // Produced from a range that is no list of fields in the file: no fix.
    let map = ExpansionMap { files: vec![real_file(1, 0, "main.rs", 10), expansion(0, 0, 10, 6)] };
    let raws = vec![raw(1, 0, 5, "missing", kind(r(0, 5)))];
    let found = try_diagnostics(&map, 0, &t, &Vec::new(), &Some(raws)).unwrap();
    assert_eq!(found[0].range, r(0, 10));
    assert_eq!(found[0].fix, None);
}

#[test]
fn detached_file_has_no_semantic_tier() {
    let map = ExpansionMap { files: vec![real_file(4, 1, "a.rs", 0)] };
    let t = tree("");
    let errors = vec![SyntaxError { range: r(0, 0), message: "expected an item".to_string() }];
    let found = diagnostics(&map, 0, &t, &errors, &None);
    assert_eq!(
        found,
        vec![Diagnostic {
            message: "Syntax Error: expected an item".to_string(),
            range: r(0, 0),
            fix: None,
            severity: Severity::Error,
        }]
    );
}

#[test]
fn anchors_outside_the_arena_are_seen() {
    let map = nested();
    let other = |file, start, end| raw(file, start, end, "m", RawKind::Other);
    assert!(check_anchors(&map, 0, &vec![]));
    assert!(check_anchors(&map, 0, &vec![other(4, 0, 1), other(0, 0, 10), other(1, 40, 90)]));
    assert!(!check_anchors(&map, 0, &vec![other(0, 0, 1), other(5, 0, 1)]));
    // A file whose lineage starts elsewhere.
    assert!(!check_anchors(&map, 0, &vec![other(3, 0, 1)]));
    assert!(check_anchors(&map, 3, &vec![other(3, 0, 1)]));
    assert!(!check_anchors(&map, 3, &vec![other(4, 0, 1)]));
    // A range that is none of the file.
    assert!(!check_anchors(&map, 0, &vec![other(0, 5, 11)]));
    assert!(!check_anchors(&map, 0, &vec![other(0, 5, 4)]));
    assert!(check_anchor(&map, 0, &other(0, 10, 10)));
    assert!(check_errors(&vec![], 0));
    let at = |start, end| SyntaxError { range: r(start, end), message: "e".to_string() };
    assert!(check_errors(&vec![at(0, 0), at(3, 10)], 10));
    assert!(!check_errors(&vec![at(0, 0), at(3, 11)], 10));
    assert!(!check_errors(&vec![at(4, 3)], 10));
}

#[test]
fn sink_keeps_what_it_was_given_and_appends() {
    let map = nested();
    let t = tree("0123456789");
    let first = Diagnostic { message: "first".to_string(), range: r(0, 1), fix: None, severity: Severity::WeakWarning };
    let mut sink = DiagnosticSink::new(&map, 0, &t, vec![first.clone()]);
    assert_eq!(sink.file_id(), FileId(4));
    let module = raw(4, 0, 8, "unresolved module", RawKind::UnresolvedModule { candidate: bytes("m") });
    assert_eq!(sink.fix(&module).unwrap().label, "Create module");
    sink.push(&module);
    let got = sink.into_diagnostics();
    assert_eq!(got.len(), 2);
    assert_eq!(got[0], first);
    assert_eq!(got[1].message, "unresolved module");
    assert_eq!(got[1].range, r(2, 6));
    assert_eq!(got[1].severity, Severity::Error);
    assert_eq!(
        got[1].fix.as_ref().unwrap().file_system_edits,
        vec![FileSystemEdit::CreateFile { source_root: SourceRootId(1), path: bytes("src/a/m.rs") }]
    );
}

#[test]
fn nesting_is_checked() {
    let mut t = tree("abcd");
    let root = add(&mut t, None, SyntaxKind::Other, 0, 4);
    add(&mut t, Some(root), SyntaxKind::Other, 0, 2);
    add(&mut t, Some(root), SyntaxKind::Other, 2, 4);
    assert!(is_nested(&t));
    // A gap between the children.
    let mut gap = tree("abcd");
    let root = add(&mut gap, None, SyntaxKind::Other, 0, 4);
    add(&mut gap, Some(root), SyntaxKind::Other, 0, 2);
    add(&mut gap, Some(root), SyntaxKind::Other, 3, 4);
    assert!(gap.validate());
    assert!(!is_nested(&gap));
    // Children that stop short of the parent's end.
    let mut short = tree("abcd");
    let root = add(&mut short, None, SyntaxKind::Other, 0, 4);
    add(&mut short, Some(root), SyntaxKind::Other, 0, 2);
    assert!(!is_nested(&short));
    // A child that is its own parent's ancestor.
    let mut cycle = tree("abcd");
    add(&mut cycle, None, SyntaxKind::Other, 0, 4);
    cycle.elements[0].children.push(0);
    assert!(!cycle.validate());
}

#[test]
fn diff_appends_to_what_is_there() {
    let mut from = tree("ab");
    let root = add(&mut from, None, SyntaxKind::Other, 0, 2);
    add(&mut from, Some(root), SyntaxKind::NameRef, 0, 1);
    add(&mut from, Some(root), SyntaxKind::NameRef, 1, 2);
    let mut to = tree("xb");
    let root = add(&mut to, None, SyntaxKind::Other, 0, 2);
    add(&mut to, Some(root), SyntaxKind::NameRef, 0, 1);
    add(&mut to, Some(root), SyntaxKind::NameRef, 1, 2);
    let mut acc = vec![atom(9, 9, "kept")];
    diff_into(&from, 0, &to, 0, &mut acc);
    assert_eq!(acc, vec![atom(9, 9, "kept"), atom(0, 1, "x")]);
    assert_eq!(diff(&from, 0, &to, 0).atoms, vec![atom(0, 1, "x")]);
    // Same text, another kind: the element is replaced all the same.
    to.elements[2].kind = SyntaxKind::Expr;
    assert_eq!(diff(&from, 0, &to, 0).atoms, vec![atom(0, 1, "x"), atom(1, 2, "b")]);
}

#[test]
fn defects_in_the_inputs_end_the_pass() {
    let map = nested();
    let t = tree("0123456789");
    let none = Vec::new();
    let other = |file| Some(vec![raw(file, 0, 1, "m", RawKind::Other)]);
    let mut broken = tree("abc");
    add(&mut broken, None, SyntaxKind::Other, 0, 4);
    assert_eq!(try_diagnostics(&map, 0, &broken, &none, &None), Err(CollectError::MalformedTree));
    let cyclic = ExpansionMap { files: vec![expansion(0, 0, 1, 5)] };
    assert_eq!(try_diagnostics(&cyclic, 0, &t, &none, &None), Err(CollectError::MalformedLineage));
    assert_eq!(try_diagnostics(&cyclic, 0, &broken, &none, &None), Err(CollectError::MalformedTree));
    assert_eq!(try_diagnostics(&map, 1, &t, &none, &None), Err(CollectError::NotARealFile));
    assert_eq!(try_diagnostics(&map, 5, &t, &none, &None), Err(CollectError::NotARealFile));
    assert_eq!(try_diagnostics(&map, 0, &t, &none, &other(5)), Err(CollectError::UnknownAnchor));
    assert_eq!(try_diagnostics(&map, 1, &t, &none, &other(5)), Err(CollectError::NotARealFile));
    assert_eq!(
        try_diagnostics(&map, 0, &t, &none, &other(4)),
        Ok(diagnostics(&map, 0, &t, &none, &other(4)))
    );
    assert_eq!(try_diagnostics(&map, 3, &t, &none, &None), Ok(vec![]));
    assert_eq!(try_diagnostics(&map, 0, &t, &none, &other(3)), Err(CollectError::UnknownAnchor));
    let outside = Some(vec![raw(0, 9, 11, "m", RawKind::Other)]);
    assert_eq!(try_diagnostics(&map, 0, &t, &none, &outside), Err(CollectError::UnknownAnchor));
    let short = tree("012");
    assert_eq!(try_diagnostics(&map, 0, &short, &none, &None), Err(CollectError::TextMismatch));
    assert_eq!(try_diagnostics(&map, 1, &short, &none, &None), Err(CollectError::NotARealFile));
    let stray = vec![SyntaxError { range: r(10, 11), message: "e".to_string() }];
    assert_eq!(try_diagnostics(&map, 0, &t, &stray, &other(5)), Err(CollectError::StrayParseError));
    assert_eq!(try_diagnostics(&map, 0, &short, &stray, &None), Err(CollectError::TextMismatch));
    let inside = vec![SyntaxError { range: r(10, 10), message: "e".to_string() }];
    assert_eq!(try_diagnostics(&map, 0, &t, &inside, &None).unwrap().len(), 1);
}
