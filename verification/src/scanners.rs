//! Scanners that look at one node of the tree and flag a local anti-pattern,
//! each with the edit that removes it.

use vstd::prelude::*;
use itertools::Itertools;
use crate::diagnostic::{
    all_fixes_valid, all_ranges_within, diagnostics_view, push_diagnostic, text_fix, Diagnostic, DiagnosticView, FileId,
    Severity, SourceChange, SourceFileEdit,
};
use crate::edit::{
    delete_then_insert, insert_pos, key_le, lemma_splice_delete_then_insert, lemma_splice_single,
    replaced, splice, AtomView, TextEdit, TextEditBuilder, TextRange,
};
use crate::syntax::{SyntaxKind, SyntaxTree};

verus! {

/// `Itertools::collect_tuple` into a tuple of one, over the items of a
/// vector: the item where the vector holds exactly one, nothing where it is
/// empty or holds more.
#[verifier::external_body]
fn collect_single(ids: &Vec<usize>) -> (r: Option<usize>)
    ensures
        r == (if ids@.len() == 1 {
            Some(ids@[0])
        } else {
            None::<usize>
        }),
{
    ids.iter().collect_tuple::<(&usize,)>().map(|t| *t.0)
}

/// Builds the edit that deletes `range` and inserts `text` at its start.
pub fn replace_by_delete_and_insert(range: TextRange, text: Vec<u8>) -> (e: TextEdit)
    requires
        range.wf(),
    ensures
        e.wf(),
        e@ == delete_then_insert(range, text@),
{
    let mut builder = TextEditBuilder::new();
    builder.delete(range);
    let ghost del = AtomView { delete: range, insert: Seq::<u8>::empty() };
    let ghost at = TextRange { start: range.start, end: range.start };
    proof {
        assert(insert_pos(Seq::<AtomView>::empty(), range) == 0);
        assert(builder@ =~= seq![del]);
        assert(builder@.drop_first() =~= Seq::<AtomView>::empty());
        assert(insert_pos(builder@.drop_first(), at) == 0);
        assert(insert_pos(builder@, at) == if key_le(range, at) {
            1int
        } else {
            0int
        });
    }
    builder.insert(range.start, text);
    proof {
        assert(builder@ =~= delete_then_insert(range, text@));
        let d = delete_then_insert(range, text@);
        assert(d[0].delete.end <= d[1].delete.start);
    }
    builder.finish()
}

/// For a use tree that stands alone in a list: the range to delete where the
/// tree is the path `self`, from the start of what precedes the list (the
/// separator) to the end of the list.
pub open spec fn self_braces_range(tree: &SyntaxTree, single: int) -> Option<TextRange> {
    match tree.elements@[single].parent {
        None => None,
        Some(list) => match tree.first_child_of_kind_spec(single, SyntaxKind::Path) {
            None => None,
            Some(path) => match tree.first_child_of_kind_spec(path as int, SyntaxKind::PathSegment) {
                None => None,
                Some(segment) => match tree.first_child_spec(segment as int) {
                    None => None,
                    Some(first) => match tree.prev_sibling_spec(list as int) {
                        None => None,
                        Some(prev) => if tree.elements@[first as int].kind == SyntaxKind::SelfKw {
                            Some(
                                TextRange {
                                    start: tree.elements@[prev as int].range.start,
                                    end: tree.elements@[list as int].range.end,
                                },
                            )
                        } else {
                            None
                        },
                    },
                },
            },
        },
    }
}

/// The edit for a list of use trees that holds exactly one tree, nothing for
/// another node.
pub open spec fn braces_edit(tree: &SyntaxTree, node: int) -> Option<Seq<AtomView>> {
    let trees = tree.children_of_kind_spec(node, SyntaxKind::UseTree);
    if tree.elements@[node].kind == SyntaxKind::UseTreeList && trees.len() == 1 {
        match self_braces_range(tree, trees[0] as int) {
            Some(r) => Some(seq![(AtomView { delete: r, insert: Seq::<u8>::empty() })]),
            None => Some(delete_then_insert(tree.elements@[node].range, tree.text_of(trees[0] as int))),
        }
    } else {
        None
    }
}

/// The text that the edit of `braces_edit` leaves: the list replaced by its
/// one tree, or, for `self`, the separator and the list removed.
pub open spec fn braces_fixed_text(tree: &SyntaxTree, node: int) -> Seq<u8> {
    let single = tree.children_of_kind_spec(node, SyntaxKind::UseTree)[0] as int;
    match self_braces_range(tree, single) {
        Some(r) => replaced(tree.text@, r, Seq::<u8>::empty()),
        None => replaced(tree.text@, tree.elements@[node].range, tree.text_of(single)),
    }
}

/// What the scanner for needless braces reports at `node`.
pub open spec fn braces_diagnostics(tree: &SyntaxTree, file_id: FileId, node: int) -> Seq<DiagnosticView> {
    match braces_edit(tree, node) {
        None => Seq::<DiagnosticView>::empty(),
        Some(edit) => seq![
            (DiagnosticView {
                message: "Unnecessary braces in use statement"@,
                range: tree.elements@[node].range,
                fix: Some(text_fix("Remove unnecessary braces"@, file_id, edit)),
                severity: Severity::WeakWarning,
            }),
        ],
    }
}

/// The edit that removes the braces around `self` together with the
/// separator before them, where `single` is such a tree.
pub fn text_edit_for_remove_unnecessary_braces_with_self_in_use_statement(
    tree: &SyntaxTree,
    single: usize,
) -> (r: Option<TextEdit>)
    requires
        tree.wf(),
        single < tree.elements@.len(),
    ensures
        match self_braces_range(tree, single as int) {
            Some(range) => r matches Some(e) && e.wf() && e@ == seq![
                (AtomView { delete: range, insert: Seq::<u8>::empty() }),
            ] && range.within(tree.text@.len() as int),
            None => r is None,
        },
{
    let list: usize = tree.parent(single)?;
    let path: usize = tree.first_child_of_kind(single, SyntaxKind::Path)?;
    let segment: usize = tree.first_child_of_kind(path, SyntaxKind::PathSegment)?;
    let first: usize = tree.first_child(segment)?;
    assert(list < tree.elements@.len()) by {
        assert(tree.elements@[single as int].parent == Some(list));
    }
    if tree.kind(first) == SyntaxKind::SelfKw {
        let prev: usize = tree.prev_sibling(list)?;
        let start: u32 = tree.range(prev).start;
        let end: u32 = tree.range(list).end;
        assert(tree.elements@[list as int].range.within(tree.text@.len() as int));
        assert(tree.elements@[prev as int].range.within(tree.text@.len() as int));
        return Some(TextEdit::delete(TextRange::new(start, end)));
    }
    None
}

/// Flags a list of use trees that holds exactly one tree. The result tells
/// whether `node` is such a list at all.
pub fn check_unnecessary_braces_in_use_statement(
    acc: &mut Vec<Diagnostic>,
    file_id: FileId,
    tree: &SyntaxTree,
    node: usize,
) -> (r: Option<()>)
    requires
        tree.wf(),
        node < tree.elements@.len(),
    ensures
        r.is_some() == (tree.elements@[node as int].kind == SyntaxKind::UseTreeList),
        diagnostics_view(final(acc)@) == diagnostics_view(old(acc)@) + braces_diagnostics(
            tree,
            file_id,
            node as int,
        ),
        braces_edit(tree, node as int) matches Some(edit) ==> splice(tree.text@, edit, 0)
            == braces_fixed_text(tree, node as int),
        all_fixes_valid(braces_diagnostics(tree, file_id, node as int), tree.text@.len() as int),
        all_ranges_within(braces_diagnostics(tree, file_id, node as int), tree.text@.len() as int),
{
    assert(tree.elements@[node as int].range.within(tree.text@.len() as int));
    if tree.kind(node) != SyntaxKind::UseTreeList {
        assert(diagnostics_view(acc@) =~= diagnostics_view(old(acc)@) + braces_diagnostics(
            tree,
            file_id,
            node as int,
        ));
        return None;
    }
    let use_trees = tree.children_of_kind(node, SyntaxKind::UseTree);
    if let Some(single) = collect_single(&use_trees) {
        let range = tree.range(node);
        assert(single < tree.elements@.len()) by {
            assert(use_trees@[0] == single);
        }
        assert(range.within(tree.text@.len() as int)) by {
            assert(tree.elements@[node as int].range.within(tree.text@.len() as int));
        }
        let edit = match text_edit_for_remove_unnecessary_braces_with_self_in_use_statement(tree, single) {
            Some(e) => {
                proof {
                    lemma_splice_single(
                        tree.text@,
                        self_braces_range(tree, single as int).unwrap(),
                        Seq::<u8>::empty(),
                    );
                }
                e
            },
            None => {
                let to_replace = tree.text(single);
                proof {
                    lemma_splice_delete_then_insert(tree.text@, range, to_replace@);
                }
                replace_by_delete_and_insert(range, to_replace)
            },
        };
        let d = Diagnostic {
            range,
            message: "Unnecessary braces in use statement".to_owned(),
            severity: Severity::WeakWarning,
            fix: Some(
                SourceChange::source_file_edit("Remove unnecessary braces", SourceFileEdit { file_id, edit }),
            ),
        };
        push_diagnostic(acc, d);
        assert(diagnostics_view(acc@) =~= diagnostics_view(old(acc)@) + braces_diagnostics(
            tree,
            file_id,
            node as int,
        ));
    } else {
        assert(diagnostics_view(acc@) =~= diagnostics_view(old(acc)@) + braces_diagnostics(
            tree,
            file_id,
            node as int,
        ));
    }
    Some(())
}

/// A field name that is a position in a tuple: digits and nothing else.
pub open spec fn is_tuple_index(name: Seq<u8>) -> bool {
    name.len() > 0 && forall|i: int| 0 <= i < name.len() ==> 48 <= #[trigger] name[i] <= 57
}

/// Whether the field at `field` is written `name: value` with a value that
/// reads exactly as the name does, the name being no tuple position.
pub open spec fn shorthand_applies(tree: &SyntaxTree, field: int) -> bool {
    match (
        tree.first_child_of_kind_spec(field, SyntaxKind::NameRef),
        tree.first_child_of_kind_spec(field, SyntaxKind::Expr),
    ) {
        (Some(name), Some(value)) => tree.text_of(name as int) == tree.text_of(value as int)
            && !is_tuple_index(tree.text_of(name as int)),
        _ => false,
    }
}

/// The name of the field at `field`, as text.
pub open spec fn field_name_text(tree: &SyntaxTree, field: int) -> Seq<u8> {
    match tree.first_child_of_kind_spec(field, SyntaxKind::NameRef) {
        Some(name) => tree.text_of(name as int),
        None => Seq::<u8>::empty(),
    }
}

/// The diagnostic for a field to which `shorthand_applies`.
pub open spec fn shorthand_diagnostic(tree: &SyntaxTree, file_id: FileId, field: int) -> DiagnosticView {
    DiagnosticView {
        message: "Shorthand struct initialization"@,
        range: tree.elements@[field].range,
        fix: Some(
            text_fix(
                "Use struct shorthand initialization"@,
                file_id,
                delete_then_insert(tree.elements@[field].range, field_name_text(tree, field)),
            ),
        ),
        severity: Severity::WeakWarning,
    }
}

/// The diagnostics for the fields `fields`, in their order.
pub open spec fn shorthand_fields(tree: &SyntaxTree, file_id: FileId, fields: Seq<usize>) -> Seq<
    DiagnosticView,
>
    decreases fields.len(),
{
    if fields.len() == 0 {
        Seq::<DiagnosticView>::empty()
    } else {
        let rest = shorthand_fields(tree, file_id, fields.drop_last());
        if shorthand_applies(tree, fields.last() as int) {
            rest.push(shorthand_diagnostic(tree, file_id, fields.last() as int))
        } else {
            rest
        }
    }
}

/// What the scanner for redundant field bindings reports at `node`.
pub open spec fn shorthand_diagnostics(tree: &SyntaxTree, file_id: FileId, node: int) -> Seq<
    DiagnosticView,
> {
    if tree.elements@[node].kind == SyntaxKind::RecordLit {
        match tree.first_child_of_kind_spec(node, SyntaxKind::RecordFieldList) {
            Some(list) => shorthand_fields(
                tree,
                file_id,
                tree.children_of_kind_spec(list as int, SyntaxKind::RecordField),
            ),
            None => Seq::<DiagnosticView>::empty(),
        }
    } else {
        Seq::<DiagnosticView>::empty()
    }
}

/// Whether `name` is a position in a tuple.
pub fn tuple_index(name: &Vec<u8>) -> (b: bool)
    ensures
        b == is_tuple_index(name@),
{
    let n: usize = name.len();
    if n == 0 {
        return false;
    }
    let mut k: usize = 0;
    while k < n
        invariant
            n == name@.len(),
            0 <= k <= n,
            forall|i: int| 0 <= i < k ==> 48 <= #[trigger] name@[i] <= 57,
        decreases n - k,
    {
        if name[k] < 48 || name[k] > 57 {
            assert(!(48 <= name@[k as int] <= 57));
            return false;
        }
        k += 1;
    }
    true
}

/// Flags each field of a record literal that binds a name to itself. The
/// result tells whether `node` is a record literal with a list of fields.
pub fn check_struct_shorthand_initialization(
    acc: &mut Vec<Diagnostic>,
    file_id: FileId,
    tree: &SyntaxTree,
    node: usize,
) -> (r: Option<()>)
    requires
        tree.wf(),
        node < tree.elements@.len(),
    ensures
        r.is_some() == (tree.elements@[node as int].kind == SyntaxKind::RecordLit
            && tree.first_child_of_kind_spec(node as int, SyntaxKind::RecordFieldList).is_some()),
        diagnostics_view(final(acc)@) == diagnostics_view(old(acc)@) + shorthand_diagnostics(
            tree,
            file_id,
            node as int,
        ),
        all_fixes_valid(shorthand_diagnostics(tree, file_id, node as int), tree.text@.len() as int),
        all_ranges_within(shorthand_diagnostics(tree, file_id, node as int), tree.text@.len() as int),
{
    if tree.kind(node) != SyntaxKind::RecordLit {
        assert(diagnostics_view(acc@) =~= diagnostics_view(old(acc)@) + shorthand_diagnostics(
            tree,
            file_id,
            node as int,
        ));
        return None;
    }
    let list: usize = match tree.first_child_of_kind(node, SyntaxKind::RecordFieldList) {
        Some(l) => l,
        None => {
            assert(diagnostics_view(acc@) =~= diagnostics_view(old(acc)@) + shorthand_diagnostics(
                tree,
                file_id,
                node as int,
            ));
            return None;
        },
    };
    let fields = tree.children_of_kind(list, SyntaxKind::RecordField);
    let n: usize = fields.len();
    let mut k: usize = 0;
    assert(diagnostics_view(acc@) =~= diagnostics_view(old(acc)@) + shorthand_fields(
        tree,
        file_id,
        fields@.subrange(0, 0),
    ));
    while k < n
        invariant
            tree.wf(),
            n == fields@.len(),
            0 <= k <= n,
            forall|i: int| 0 <= i < fields@.len() ==> (#[trigger] fields@[i]) < tree.elements@.len(),
            diagnostics_view(acc@) == diagnostics_view(old(acc)@) + shorthand_fields(
                tree,
                file_id,
                fields@.subrange(0, k as int),
            ),
            all_fixes_valid(
                shorthand_fields(tree, file_id, fields@.subrange(0, k as int)),
                tree.text@.len() as int,
            ),
            all_ranges_within(
                shorthand_fields(tree, file_id, fields@.subrange(0, k as int)),
                tree.text@.len() as int,
            ),
        decreases n - k,
    {
        let field: usize = fields[k];
        assert(tree.elements@[field as int].range.within(tree.text@.len() as int));
        proof {
            let upto = fields@.subrange(0, k + 1);
            assert(upto.last() == field);
            assert(upto.drop_last() =~= fields@.subrange(0, k as int));
        }
        if let (Some(name), Some(value)) = (
            tree.first_child_of_kind(field, SyntaxKind::NameRef),
            tree.first_child_of_kind(field, SyntaxKind::Expr),
        ) {
            let field_name = tree.text(name);
            if tree.same_text(name, value) && !tuple_index(&field_name) {
                let range = tree.range(field);
                assert(range.within(tree.text@.len() as int)) by {
                    assert(tree.elements@[field as int].range.within(tree.text@.len() as int));
                }
                proof {
                    lemma_splice_delete_then_insert(tree.text@, range, field_name@);
                }
                let edit = replace_by_delete_and_insert(range, field_name);
                let d = Diagnostic {
                    range,
                    message: "Shorthand struct initialization".to_owned(),
                    severity: Severity::WeakWarning,
                    fix: Some(
                        SourceChange::source_file_edit(
                            "Use struct shorthand initialization",
                            SourceFileEdit { file_id, edit },
                        ),
                    ),
                };
                push_diagnostic(acc, d);
            }
        }
        k += 1;
        assert(diagnostics_view(acc@) =~= diagnostics_view(old(acc)@) + shorthand_fields(
            tree,
            file_id,
            fields@.subrange(0, k as int),
        ));
    }
    proof {
        assert(fields@.subrange(0, n as int) =~= fields@);
    }
    Some(())
}

/// Applying the fix of a flagged field to the text of the tree puts the bare
/// name in the place of the field and leaves every other byte as it was.
pub proof fn lemma_shorthand_fix_replaces_field(tree: &SyntaxTree, file_id: FileId, field: int)
    requires
        tree.wf(),
        0 <= field < tree.elements@.len(),
    ensures
        splice(
            tree.text@,
            shorthand_diagnostic(tree, file_id, field).fix.unwrap().source_file_edits[0].edit,
            0,
        ) == replaced(tree.text@, tree.elements@[field].range, field_name_text(tree, field)),
{
    assert(tree.elements@[field].range.within(tree.text@.len() as int));
    lemma_splice_delete_then_insert(
        tree.text@,
        tree.elements@[field].range,
        field_name_text(tree, field),
    );
}

} // verus!
