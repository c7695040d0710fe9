//! The diagnostics that the semantic engine hands over, and the fixes that
//! can be derived for them from the shape of the syntax alone.

use vstd::prelude::*;
use crate::diagnostic::{
    file_fix, fix_valid, text_fix, FileId, FileSystemEdit, FileSystemEditView, SourceChange, SourceChangeView,
};
use crate::edit::{extend_from_range, lemma_splice_single, replaced, splice, AtomView, TextEdit, TextRange};
use crate::reconcile::{ExpansionMap, FileOrigin, InFile};
use crate::syntax::{SyntaxKind, SyntaxTree};

verus! {

/// The name of a field: a word, or a position in a tuple.
#[derive(Clone, Debug, PartialEq, Eq)]
pub enum FieldName {
    Named(Vec<u8>),
    TupleIndex(usize),
}

/// The kinds of semantic diagnostic, each with what its fix needs. Ranges
/// are in the file of the diagnostic's anchor.
#[derive(Clone, Debug, PartialEq, Eq)]
pub enum RawKind {
    /// `mod name;` with no file behind it.
    UnresolvedModule { candidate: Vec<u8> },
    /// A record literal that leaves fields out; `field_list` is its list.
    MissingFields { field_list: TextRange, missed_fields: Vec<FieldName> },
    /// A match that does not cover every case.
    MissingMatchArms,
    /// A tail expression that wants wrapping in `Ok`.
    MissingOkInTailExpr { expr: TextRange },
    /// Any other kind.
    Other,
}

/// One diagnostic of the semantic engine, anchored in a file of the arena.
#[derive(Clone, Debug, PartialEq, Eq)]
pub struct RawDiagnostic {
    pub anchor: InFile,
    pub message: String,
    pub kind: RawKind,
}

/// The view of a fix that may be absent.
pub open spec fn fix_view(fix: Option<SourceChange>) -> Option<SourceChangeView> {
    match fix {
        Some(c) => Some(c@),
        None => None,
    }
}

/// The length of the directory part of `path`: what stands before its last
/// slash, nothing where it has none.
pub open spec fn dir_len(path: Seq<u8>) -> int
    decreases path.len(),
{
    if path.len() == 0 {
        0
    } else if path.last() == 47 {
        path.len() - 1
    } else {
        dir_len(path.drop_last())
    }
}

/// The extension of a source file.
pub open spec fn source_extension() -> Seq<u8> {
    seq![46u8, 114u8, 115u8]
}

/// The path of the file for module `name`, beside the file at `current`.
pub open spec fn sibling_module_path(current: Seq<u8>, name: Seq<u8>) -> Seq<u8> {
    let dir = current.subrange(0, dir_len(current));
    if dir.len() == 0 {
        name + source_extension()
    } else {
        dir + seq![47u8] + name + source_extension()
    }
}

/// The fix for an unresolved module that is declared in `file`: create its
/// file beside the real file that `file` comes from. There is none for an
/// empty name.
pub open spec fn unresolved_module_fix_spec(map: &ExpansionMap, file: int, candidate: Seq<u8>) -> Option<
    SourceChangeView,
> {
    match map.files@[map.root(file)] {
        FileOrigin::Real { source_root, path, .. } if candidate.len() > 0 => Some(
            file_fix(
                "Create module"@,
                FileSystemEditView::CreateFile { source_root, path: sibling_module_path(path@, candidate) },
            ),
        ),
        _ => None,
    }
}

/// Computes `sibling_module_path`.
pub fn module_file_path(current: &Vec<u8>, name: &Vec<u8>) -> (out: Vec<u8>)
    ensures
        out@ == sibling_module_path(current@, name@),
{
    let mut i: usize = current.len();
    proof {
        assert(current@.subrange(0, i as int) =~= current@);
    }
    while i > 0 && current[i - 1] != 47
        invariant
            0 <= i <= current@.len(),
            dir_len(current@) == dir_len(current@.subrange(0, i as int)),
        decreases i,
    {
        proof {
            let upto = current@.subrange(0, i as int);
            assert(upto.last() == current@[i - 1]);
            assert(upto.drop_last() =~= current@.subrange(0, i - 1));
        }
        i -= 1;
    }
    proof {
        let upto = current@.subrange(0, i as int);
        if i > 0 {
            assert(upto.last() == current@[i - 1]);
        }
    }
    let mut out: Vec<u8> = Vec::new();
    if i > 1 {
        extend_from_range(&mut out, current, 0, i - 1);
        out.push(47);
    }
    extend_from_range(&mut out, name, 0, name.len());
    out.push(46);
    out.push(114);
    out.push(115);
    proof {
        assert(name@.subrange(0, name@.len() as int) =~= name@);
        assert(out@ =~= sibling_module_path(current@, name@));
    }
    out
}

/// Builds the fix of `unresolved_module_fix_spec`.
pub fn unresolved_module_fix(map: &ExpansionMap, file: usize, candidate: &Vec<u8>) -> (r: Option<
    SourceChange,
>)
    requires
        map.wf(),
        file < map.files@.len(),
    ensures
        fix_view(r) == unresolved_module_fix_spec(map, file as int, candidate@),
        r matches Some(c) ==> c.wf(),
        forall|len: int| fix_valid(unresolved_module_fix_spec(map, file as int, candidate@), len),
{
    if candidate.len() == 0 {
        return None;
    }
    let root: usize = map.original_file(file);
    match &map.files[root] {
        FileOrigin::Real { source_root, path, .. } => {
            let create_file = FileSystemEdit::CreateFile {
                source_root: *source_root,
                path: module_file_path(path, candidate),
            };
            Some(SourceChange::file_system_edit("Create module", create_file))
        },
        FileOrigin::Expansion { .. } => None,
    }
}

/// The text `: ()`.
pub open spec fn colon_unit() -> Seq<u8> {
    seq![58u8, 32u8, 40u8, 41u8]
}

/// The text `, `.
pub open spec fn comma_space() -> Seq<u8> {
    seq![44u8, 32u8]
}

/// One blank.
pub open spec fn space() -> Seq<u8> {
    seq![32u8]
}

/// A field initialised with the unit value.
pub open spec fn field_text(name: FieldName) -> Seq<u8> {
    match name {
        FieldName::Named(n) => n@ + colon_unit(),
        FieldName::TupleIndex(_) => Seq::<u8>::empty(),
    }
}

/// The fields `names`, each initialised with the unit value, separated by
/// `, `.
pub open spec fn render_fields(names: Seq<FieldName>) -> Seq<u8>
    decreases names.len(),
{
    if names.len() == 0 {
        Seq::<u8>::empty()
    } else if names.len() == 1 {
        field_text(names[0])
    } else {
        render_fields(names.drop_last()) + comma_space() + field_text(names.last())
    }
}

/// Some field is a position in a tuple.
pub open spec fn has_tuple_index(names: Seq<FieldName>) -> bool {
    exists|i: int| 0 <= i < names.len() && #[trigger] names[i] is TupleIndex
}

/// Where new fields go in the list at `list`, and what is written there:
/// behind the last field, after its comma where it has one; in a list without
/// fields, behind the opening brace, with a blank before a closing brace that
/// follows at once. Nothing where the list has neither field nor brace.
pub open spec fn fill_spec(tree: &SyntaxTree, list: int, names: Seq<FieldName>) -> Option<(u32, Seq<u8>)> {
    let fields = tree.children_of_kind_spec(list, SyntaxKind::RecordField);
    if fields.len() > 0 {
        let last = fields.last();
        match tree.next_sibling_spec(last as int) {
            Some(c) if tree.elements@[c as int].kind == SyntaxKind::Comma => Some(
                (tree.elements@[c as int].range.end, space() + render_fields(names)),
            ),
            _ => Some((tree.elements@[last as int].range.end, comma_space() + render_fields(names))),
        }
    } else {
        match tree.first_child_of_kind_spec(list, SyntaxKind::LCurly) {
            None => None,
            Some(open) => Some(
                (
                    tree.elements@[open as int].range.end,
                    space() + render_fields(names) + (match tree.next_sibling_spec(open as int) {
                        Some(c) if tree.elements@[c as int].kind == SyntaxKind::RCurly => space(),
                        _ => Seq::<u8>::empty(),
                    }),
                ),
            ),
        }
    }
}

/// The fix that fills in the fields `names` of the record literal whose
/// list of fields covers `field_list`. There is none where a name is a
/// position in a tuple, where no name is given, or where the tree holds no
/// such list.
pub open spec fn missing_fields_fix_spec(
    tree: &SyntaxTree,
    file_id: FileId,
    field_list: TextRange,
    names: Seq<FieldName>,
) -> Option<SourceChangeView> {
    if has_tuple_index(names) || names.len() == 0 {
        None
    } else {
        match tree.find_spec(SyntaxKind::RecordFieldList, field_list, 0) {
            None => None,
            Some(list) => match fill_spec(tree, list as int, names) {
                None => None,
                Some((offset, text)) => Some(
                    text_fix(
                        "Fill struct fields"@,
                        file_id,
                        seq![(AtomView { delete: (TextRange { start: offset, end: offset }), insert: text })],
                    ),
                ),
            },
        }
    }
}

/// Whether some name is a position in a tuple.
pub fn any_tuple_index(names: &Vec<FieldName>) -> (b: bool)
    ensures
        b == has_tuple_index(names@),
{
    let n: usize = names.len();
    let mut k: usize = 0;
    while k < n
        invariant
            n == names@.len(),
            0 <= k <= n,
            forall|i: int| 0 <= i < k ==> !(#[trigger] names@[i] is TupleIndex),
        decreases n - k,
    {
        match &names[k] {
            FieldName::TupleIndex(_) => {
                assert(names@[k as int] is TupleIndex);
                return true;
            },
            FieldName::Named(_) => {},
        }
        k += 1;
    }
    false
}

/// Appends `render_fields(names)` to `out`.
pub fn push_fields(out: &mut Vec<u8>, names: &Vec<FieldName>)
    ensures
        final(out)@ == old(out)@ + render_fields(names@),
{
    let n: usize = names.len();
    let mut k: usize = 0;
    assert(out@ =~= old(out)@ + render_fields(names@.subrange(0, 0)));
    while k < n
        invariant
            n == names@.len(),
            0 <= k <= n,
            out@ == old(out)@ + render_fields(names@.subrange(0, k as int)),
        decreases n - k,
    {
        proof {
            let upto = names@.subrange(0, k + 1);
            assert(upto.last() == names@[k as int]);
            assert(upto.drop_last() =~= names@.subrange(0, k as int));
            assert(upto[0] == names@[0]);
        }
        if k > 0 {
            out.push(44);
            out.push(32);
        }
        match &names[k] {
            FieldName::Named(name) => {
                extend_from_range(out, name, 0, name.len());
                out.push(58);
                out.push(32);
                out.push(40);
                out.push(41);
                assert(name@.subrange(0, name@.len() as int) =~= name@);
            },
            FieldName::TupleIndex(_) => {},
        }
        k += 1;
        assert(out@ =~= old(out)@ + render_fields(names@.subrange(0, k as int)));
    }
    proof {
        assert(names@.subrange(0, n as int) =~= names@);
    }
}

/// Computes `fill_spec`.
pub fn fill_insertion(tree: &SyntaxTree, list: usize, names: &Vec<FieldName>) -> (r: Option<(u32, Vec<u8>)>)
    requires
        tree.wf(),
        list < tree.elements@.len(),
    ensures
        match fill_spec(tree, list as int, names@) {
            Some((offset, text)) => r matches Some(got) && got.0 == offset && got.1@ == text
                && offset <= tree.text@.len() && tree.elements@[list as int].range.start <= offset
                <= tree.elements@[list as int].range.end,
            None => r is None,
        },
{
    let fields = tree.children_of_kind(list, SyntaxKind::RecordField);
    let mut text: Vec<u8> = Vec::new();
    if fields.len() > 0 {
        let last: usize = fields[fields.len() - 1];
        assert(last == fields@.last());
        let mut offset: u32 = tree.range(last).end;
        let mut after_comma: bool = false;
        assert(tree.elements@[last as int].range.within(tree.text@.len() as int));
        match tree.next_sibling(last) {
            Some(c) => {
                assert(tree.elements@[c as int].range.within(tree.text@.len() as int));
                if tree.kind(c) == SyntaxKind::Comma {
                    offset = tree.range(c).end;
                    after_comma = true;
                }
            },
            None => {},
        }
        if !after_comma {
            text.push(44);
        }
        text.push(32);
        push_fields(&mut text, names);
        assert(text@ =~= (if after_comma {
            space()
        } else {
            comma_space()
        }) + render_fields(names@));
        Some((offset, text))
    } else {
        let open: usize = tree.first_child_of_kind(list, SyntaxKind::LCurly)?;
        assert(tree.elements@[open as int].range.within(tree.text@.len() as int));
        text.push(32);
        push_fields(&mut text, names);
        let mut closes: bool = false;
        match tree.next_sibling(open) {
            Some(c) => {
                if tree.kind(c) == SyntaxKind::RCurly {
                    text.push(32);
                    closes = true;
                }
            },
            None => {},
        }
        assert(text@ =~= space() + render_fields(names@) + (if closes {
            space()
        } else {
            Seq::<u8>::empty()
        }));
        Some((tree.range(open).end, text))
    }
}

/// Builds the fix of `missing_fields_fix_spec`. Applying the fix leaves the
/// text with the new fields written at the insertion point, which lies in
/// the list; what stood before and behind it is kept byte for byte.
pub fn missing_fields_fix(
    tree: &SyntaxTree,
    file_id: FileId,
    field_list: TextRange,
    names: &Vec<FieldName>,
) -> (r: Option<SourceChange>)
    requires
        tree.wf(),
    ensures
        fix_view(r) == missing_fields_fix_spec(tree, file_id, field_list, names@),
        r matches Some(c) ==> c.wf(),
        missing_fields_fix_spec(tree, file_id, field_list, names@) matches Some(fix) ==> ({
            let list = tree.find_spec(SyntaxKind::RecordFieldList, field_list, 0).unwrap();
            let (offset, text) = fill_spec(tree, list as int, names@).unwrap();
            field_list.start <= offset <= field_list.end && offset <= tree.text@.len() && splice(
                tree.text@,
                fix.source_file_edits[0].edit,
                0,
            ) == replaced(tree.text@, (TextRange { start: offset, end: offset }), text)
        }),
        fix_valid(missing_fields_fix_spec(tree, file_id, field_list, names@), tree.text@.len() as int),
{
    if any_tuple_index(names) || names.len() == 0 {
        return None;
    }
    let list: usize = tree.find(SyntaxKind::RecordFieldList, field_list)?;
    let (offset, text) = fill_insertion(tree, list, names)?;
    proof {
        lemma_splice_single(tree.text@, TextRange { start: offset, end: offset }, text@);
    }
    Some(SourceChange::source_file_edit_from("Fill struct fields", file_id, TextEdit::insert(offset, text)))
}

/// The text wrapped in `Ok( )`.
pub open spec fn wrapped_in_ok(text: Seq<u8>) -> Seq<u8> {
    seq![79u8, 107u8, 40u8] + text + seq![41u8]
}

/// The fix that wraps the expression at `expr` in `Ok( )`. There is none
/// where `expr` is no range of the text.
pub open spec fn wrap_fix_spec(tree: &SyntaxTree, file_id: FileId, expr: TextRange) -> Option<
    SourceChangeView,
> {
    if expr.within(tree.text@.len() as int) {
        Some(
            text_fix(
                "Wrap with ok"@,
                file_id,
                seq![
                    (AtomView {
                        delete: expr,
                        insert: wrapped_in_ok(tree.text@.subrange(expr.start as int, expr.end as int)),
                    }),
                ],
            ),
        )
    } else {
        None
    }
}

/// Builds the fix of `wrap_fix_spec`.
pub fn wrap_with_ok_fix(tree: &SyntaxTree, file_id: FileId, expr: TextRange) -> (r: Option<SourceChange>)
    ensures
        fix_view(r) == wrap_fix_spec(tree, file_id, expr),
        r matches Some(c) ==> c.wf(),
        fix_valid(wrap_fix_spec(tree, file_id, expr), tree.text@.len() as int),
        wrap_fix_spec(tree, file_id, expr) matches Some(fix) ==> splice(
            tree.text@,
            fix.source_file_edits[0].edit,
            0,
        ) == replaced(
            tree.text@,
            expr,
            wrapped_in_ok(tree.text@.subrange(expr.start as int, expr.end as int)),
        ),
{
    if expr.start > expr.end || (expr.end as usize) > tree.text.len() {
        return None;
    }
    proof {
        lemma_wrap_fix_applies(tree, file_id, expr);
    }
    let mut text: Vec<u8> = Vec::new();
    text.push(79);
    text.push(107);
    text.push(40);
    extend_from_range(&mut text, &tree.text, expr.start as usize, expr.end as usize);
    text.push(41);
    assert(text@ =~= wrapped_in_ok(tree.text@.subrange(expr.start as int, expr.end as int)));
    Some(SourceChange::source_file_edit_from("Wrap with ok", file_id, TextEdit::replace(expr, text)))
}

/// Applying the fix that wraps an expression leaves the text with the
/// expression wrapped and every other byte as it was.
pub proof fn lemma_wrap_fix_applies(tree: &SyntaxTree, file_id: FileId, expr: TextRange)
    requires
        expr.within(tree.text@.len() as int),
    ensures
        wrap_fix_spec(tree, file_id, expr) matches Some(fix) && splice(
            tree.text@,
            fix.source_file_edits[0].edit,
            0,
        ) == replaced(
            tree.text@,
            expr,
            wrapped_in_ok(tree.text@.subrange(expr.start as int, expr.end as int)),
        ),
{
    lemma_splice_single(
        tree.text@,
        expr,
        wrapped_in_ok(tree.text@.subrange(expr.start as int, expr.end as int)),
    );
}

} // verus!
