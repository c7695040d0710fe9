//! What the collector hands out: diagnostics and the fixes attached to them.

use vstd::prelude::*;
use crate::edit::{disjoint, ranges_wf, AtomView, TextEdit, TextRange};

verus! {

/// How serious a diagnostic is.
#[derive(Debug, Copy, Clone, PartialEq, Eq, Structural)]
pub enum Severity {
    Error,
    WeakWarning,
}

/// The identity of a file that exists on disk.
#[derive(Debug, Copy, Clone, PartialEq, Eq, Structural)]
pub struct FileId(pub u32);

/// The identity of a directory tree that holds source files.
#[derive(Debug, Copy, Clone, PartialEq, Eq, Structural)]
pub struct SourceRootId(pub u32);

/// A place in a file.
#[derive(Debug, Copy, Clone, PartialEq, Eq, Structural)]
pub struct FilePosition {
    pub file_id: FileId,
    pub offset: u32,
}

/// A range in a file that exists on disk.
#[derive(Debug, Copy, Clone, PartialEq, Eq, Structural)]
pub struct FileRange {
    pub file_id: FileId,
    pub range: TextRange,
}

/// A change to the file system. A created file is empty.
#[derive(Clone, Debug, PartialEq, Eq)]
pub enum FileSystemEdit {
    CreateFile { source_root: SourceRootId, path: Vec<u8> },
}

pub enum FileSystemEditView {
    CreateFile { source_root: SourceRootId, path: Seq<u8> },
}

impl View for FileSystemEdit {
    type V = FileSystemEditView;

    open spec fn view(&self) -> FileSystemEditView {
        match *self {
            FileSystemEdit::CreateFile { source_root, path } => FileSystemEditView::CreateFile {
                source_root,
                path: path@,
            },
        }
    }
}

/// An edit of one file.
#[derive(Clone, Debug, PartialEq, Eq)]
pub struct SourceFileEdit {
    pub file_id: FileId,
    pub edit: TextEdit,
}

pub struct SourceFileEditView {
    pub file_id: FileId,
    pub edit: Seq<AtomView>,
}

impl View for SourceFileEdit {
    type V = SourceFileEditView;

    open spec fn view(&self) -> SourceFileEditView {
        SourceFileEditView { file_id: self.file_id, edit: self.edit@ }
    }
}

/// The changes that together resolve one diagnostic.
#[derive(Clone, Debug, PartialEq, Eq)]
pub struct SourceChange {
    pub label: String,
    pub source_file_edits: Vec<SourceFileEdit>,
    pub file_system_edits: Vec<FileSystemEdit>,
    pub cursor_position: Option<FilePosition>,
}

pub struct SourceChangeView {
    pub label: Seq<char>,
    pub source_file_edits: Seq<SourceFileEditView>,
    pub file_system_edits: Seq<FileSystemEditView>,
    pub cursor_position: Option<FilePosition>,
}

impl View for SourceChange {
    type V = SourceChangeView;

    open spec fn view(&self) -> SourceChangeView {
        SourceChangeView {
            label: self.label@,
            source_file_edits: Seq::new(
                self.source_file_edits@.len(),
                |i: int| self.source_file_edits@[i]@,
            ),
            file_system_edits: Seq::new(
                self.file_system_edits@.len(),
                |i: int| self.file_system_edits@[i]@,
            ),
            cursor_position: self.cursor_position,
        }
    }
}

/// The change that edits one file and does nothing else.
pub open spec fn text_fix(label: Seq<char>, file_id: FileId, edit: Seq<AtomView>) -> SourceChangeView {
    SourceChangeView {
        label,
        source_file_edits: seq![(SourceFileEditView { file_id, edit })],
        file_system_edits: Seq::<FileSystemEditView>::empty(),
        cursor_position: None,
    }
}

/// The change that is one file-system operation and edits no text.
pub open spec fn file_fix(label: Seq<char>, op: FileSystemEditView) -> SourceChangeView {
    SourceChangeView {
        label,
        source_file_edits: Seq::<SourceFileEditView>::empty(),
        file_system_edits: seq![op],
        cursor_position: None,
    }
}

impl SourceChange {
    /// Every edit in the change keeps the invariant of an edit.
    pub open spec fn wf(&self) -> bool {
        forall|i: int|
            0 <= i < self.source_file_edits@.len() ==> (#[trigger] self.source_file_edits@[i]).edit.wf()
    }

    /// A change of one file edit.
    pub fn source_file_edit(label: &str, edit: SourceFileEdit) -> (c: SourceChange)
        ensures
            c@ == text_fix(label@, edit.file_id, edit.edit@),
            edit.edit.wf() ==> c.wf(),
    {
        let mut edits: Vec<SourceFileEdit> = Vec::new();
        edits.push(edit);
        let c = SourceChange {
            label: label.to_owned(),
            source_file_edits: edits,
            file_system_edits: Vec::new(),
            cursor_position: None,
        };
        assert(c@.source_file_edits =~= seq![(SourceFileEditView { file_id: edit.file_id, edit: edit.edit@ })]);
        assert(c@.file_system_edits =~= Seq::<FileSystemEditView>::empty());
        c
    }

    /// A change of one edit to the file `file_id`.
    pub fn source_file_edit_from(label: &str, file_id: FileId, edit: TextEdit) -> (c: SourceChange)
        ensures
            c@ == text_fix(label@, file_id, edit@),
            edit.wf() ==> c.wf(),
    {
        SourceChange::source_file_edit(label, SourceFileEdit { file_id, edit })
    }

    /// A change of one file-system operation.
    pub fn file_system_edit(label: &str, edit: FileSystemEdit) -> (c: SourceChange)
        ensures
            c@ == file_fix(label@, edit@),
            c.wf(),
    {
        let mut ops: Vec<FileSystemEdit> = Vec::new();
        ops.push(edit);
        let c = SourceChange {
            label: label.to_owned(),
            source_file_edits: Vec::new(),
            file_system_edits: ops,
            cursor_position: None,
        };
        assert(c@.file_system_edits =~= seq![edit@]);
        assert(c@.source_file_edits =~= Seq::<SourceFileEditView>::empty());
        c
    }
}

/// One problem in a file, with the fix for it where there is one.
#[derive(Clone, Debug, PartialEq, Eq)]
pub struct Diagnostic {
    pub message: String,
    pub range: TextRange,
    pub fix: Option<SourceChange>,
    pub severity: Severity,
}

pub struct DiagnosticView {
    pub message: Seq<char>,
    pub range: TextRange,
    pub fix: Option<SourceChangeView>,
    pub severity: Severity,
}

impl View for Diagnostic {
    type V = DiagnosticView;

    open spec fn view(&self) -> DiagnosticView {
        DiagnosticView {
            message: self.message@,
            range: self.range,
            fix: match self.fix {
                Some(c) => Some(c@),
                None => None,
            },
            severity: self.severity,
        }
    }
}

/// The views of a list of diagnostics, in order.
pub open spec fn diagnostics_view(list: Seq<Diagnostic>) -> Seq<DiagnosticView> {
    Seq::new(list.len(), |i: int| list[i]@)
}

/// The atoms make an edit of a text of `len` bytes: they ascend, none
/// overlaps another, and none reaches beyond the text.
pub open spec fn edit_valid(atoms: Seq<AtomView>, len: int) -> bool {
    &&& ranges_wf(atoms)
    &&& disjoint(atoms)
    &&& forall|i: int| 0 <= i < atoms.len() ==> (#[trigger] atoms[i]).delete.end <= len
}

/// Every text edit of the fix, if there is a fix, is an edit of a text of
/// `len` bytes.
pub open spec fn fix_valid(fix: Option<SourceChangeView>, len: int) -> bool {
    fix matches Some(c) ==> forall|i: int|
        0 <= i < c.source_file_edits.len() ==> edit_valid((#[trigger] c.source_file_edits[i]).edit, len)
}

/// Every fix in the list can be applied to a text of `len` bytes.
pub open spec fn all_fixes_valid(list: Seq<DiagnosticView>, len: int) -> bool {
    forall|i: int| 0 <= i < list.len() ==> fix_valid((#[trigger] list[i]).fix, len)
}

/// Every diagnostic in the list is reported at a range of a text of `len`
/// bytes.
pub open spec fn all_ranges_within(list: Seq<DiagnosticView>, len: int) -> bool {
    forall|i: int| 0 <= i < list.len() ==> (#[trigger] list[i]).range.within(len)
}

/// Appends one diagnostic to a list.
pub fn push_diagnostic(acc: &mut Vec<Diagnostic>, d: Diagnostic)
    ensures
        diagnostics_view(final(acc)@) == diagnostics_view(old(acc)@).push(d@),
{
    acc.push(d);
    assert(diagnostics_view(acc@) =~= diagnostics_view(old(acc)@).push(d@));
}

} // verus!
