//! The collector: parse errors, then what the scanners find, then the
//! diagnostics of the semantic engine, each turned into a diagnostic of the
//! requested file.

use vstd::prelude::*;
use crate::diagnostic::{
    all_fixes_valid, all_ranges_within, diagnostics_view, fix_valid, push_diagnostic, Diagnostic, DiagnosticView, FileId,
    Severity, SourceChange, SourceChangeView,
};
use crate::edit::{replaced, splice, TextRange};
use crate::fixes::{
    fill_spec, fix_view, missing_fields_fix, missing_fields_fix_spec, unresolved_module_fix,
    unresolved_module_fix_spec, wrap_fix_spec, wrap_with_ok_fix, wrapped_in_ok, RawDiagnostic, RawKind,
};
use crate::reconcile::{file_len, lemma_root_range_within, ExpansionMap, FileOrigin, InFile};
use crate::scanners::{
    braces_diagnostics, check_struct_shorthand_initialization,
    check_unnecessary_braces_in_use_statement, shorthand_diagnostics,
};
use crate::syntax::{SyntaxKind, SyntaxTree};

verus! {

/// An error that the parser found, in the coordinates of the parsed file.
#[derive(Clone, Debug, PartialEq, Eq)]
pub struct SyntaxError {
    pub range: TextRange,
    pub message: String,
}

/// The message of a parse error as a diagnostic shows it.
pub open spec fn syntax_error_text(message: Seq<char>) -> Seq<char> {
    "Syntax Error: "@ + message
}

/// `format!` with the pattern `Syntax Error: {}` on a string: the prefix,
/// then the string unchanged.
#[verifier::external_body]
fn syntax_error_message(message: &String) -> (r: String)
    ensures
        r@ == syntax_error_text(message@),
{
    format!("Syntax Error: {}", message)
}

/// The diagnostic for a parse error: the error's own range, no fix.
pub open spec fn parse_diagnostic(error: SyntaxError) -> DiagnosticView {
    DiagnosticView {
        message: syntax_error_text(error.message@),
        range: error.range,
        fix: None,
        severity: Severity::Error,
    }
}

/// The diagnostics for the parse errors, in their order.
pub open spec fn parse_diagnostics(errors: Seq<SyntaxError>) -> Seq<DiagnosticView> {
    Seq::new(errors.len(), |i: int| parse_diagnostic(errors[i]))
}

/// What the scanners report for the first `upto` elements of the tree: for
/// each element in turn, needless braces, then redundant field bindings.
pub open spec fn structural_diagnostics(tree: &SyntaxTree, file_id: FileId, upto: nat) -> Seq<
    DiagnosticView,
>
    decreases upto,
{
    if upto == 0 {
        Seq::<DiagnosticView>::empty()
    } else {
        structural_diagnostics(tree, file_id, (upto - 1) as nat) + braces_diagnostics(
            tree,
            file_id,
            upto - 1,
        ) + shorthand_diagnostics(tree, file_id, upto - 1)
    }
}

/// The fix for a semantic diagnostic, chosen by its kind. A fix that edits
/// text is computed in the requested file: the range that the diagnostic
/// names is walked out of every layer of expansion first, and the fix is
/// built on the tree of the requested file at the range reached. There is
/// none where the lineage of the anchor starts in another file; kinds
/// without a handler of their own get none.
pub open spec fn fix_for(map: &ExpansionMap, requested: int, tree: &SyntaxTree, raw: RawDiagnostic) -> Option<
    SourceChangeView,
> {
    match raw.kind {
        RawKind::UnresolvedModule { candidate } => unresolved_module_fix_spec(
            map,
            raw.anchor.file as int,
            candidate@,
        ),
        RawKind::MissingFields { field_list, missed_fields } => if map.root(raw.anchor.file as int)
            == requested {
            missing_fields_fix_spec(
                tree,
                map.root_file_id(requested),
                map.root_range(raw.anchor.file as int, field_list),
                missed_fields@,
            )
        } else {
            None
        },
        RawKind::MissingOkInTailExpr { expr } => if map.root(raw.anchor.file as int) == requested {
            wrap_fix_spec(tree, map.root_file_id(requested), map.root_range(raw.anchor.file as int, expr))
        } else {
            None
        },
        RawKind::MissingMatchArms => None,
        RawKind::Other => None,
    }
}

/// What the fix for `raw`, where there is one, makes of the text of the
/// requested file. A tail expression is wrapped where it stands. Missing
/// fields are written at one place inside the list of fields. In both cases
/// every other byte is kept. A fix of another kind edits no text.
pub open spec fn fix_effect(map: &ExpansionMap, requested: int, tree: &SyntaxTree, raw: RawDiagnostic) -> bool {
    fix_for(map, requested, tree, raw) matches Some(fix) ==> match raw.kind {
        RawKind::MissingOkInTailExpr { expr } => {
            let at = map.root_range(raw.anchor.file as int, expr);
            splice(tree.text@, fix.source_file_edits[0].edit, 0) == replaced(
                tree.text@,
                at,
                wrapped_in_ok(tree.text@.subrange(at.start as int, at.end as int)),
            )
        },
        RawKind::MissingFields { field_list, missed_fields } => {
            let at = map.root_range(raw.anchor.file as int, field_list);
            let list = tree.find_spec(SyntaxKind::RecordFieldList, at, 0).unwrap();
            let (offset, text) = fill_spec(tree, list as int, missed_fields@).unwrap();
            at.start <= offset <= at.end && splice(tree.text@, fix.source_file_edits[0].edit, 0)
                == replaced(tree.text@, (TextRange { start: offset, end: offset }), text)
        },
        _ => fix.source_file_edits.len() == 0,
    }
}

/// `fix_effect` holds of every diagnostic.
pub open spec fn fix_effects(map: &ExpansionMap, requested: int, tree: &SyntaxTree, raws: Seq<RawDiagnostic>) -> bool {
    forall|i: int| 0 <= i < raws.len() ==> fix_effect(map, requested, tree, #[trigger] raws[i])
}

/// The diagnostic for a semantic diagnostic: its message, its anchor
/// reconciled to a real file, and its fix.
pub open spec fn converted(map: &ExpansionMap, requested: int, tree: &SyntaxTree, raw: RawDiagnostic) -> DiagnosticView {
    DiagnosticView {
        message: raw.message@,
        range: map.root_range(raw.anchor.file as int, raw.anchor.range),
        fix: fix_for(map, requested, tree, raw),
        severity: Severity::Error,
    }
}

/// The diagnostics for what the semantic engine handed over, in its order.
pub open spec fn semantic_diagnostics(
    map: &ExpansionMap,
    requested: int,
    tree: &SyntaxTree,
    raws: Seq<RawDiagnostic>,
) -> Seq<DiagnosticView> {
    Seq::new(raws.len(), |i: int| converted(map, requested, tree, raws[i]))
}

/// The whole result: parse errors, then structural diagnostics, then
/// semantic ones. A file that belongs to no module has no semantic tier.
pub open spec fn collected(
    map: &ExpansionMap,
    requested: int,
    tree: &SyntaxTree,
    errors: Seq<SyntaxError>,
    semantic: Option<Vec<RawDiagnostic>>,
) -> Seq<DiagnosticView> {
    parse_diagnostics(errors) + structural_diagnostics(
        tree,
        map.root_file_id(requested),
        tree.elements@.len(),
    ) + (match semantic {
        Some(raws) => semantic_diagnostics(map, requested, tree, raws@),
        None => Seq::<DiagnosticView>::empty(),
    })
}

/// The anchor lies in a file of the arena whose lineage starts in the
/// requested file; where that file is the requested file itself, the anchor
/// is a range of it.
pub open spec fn anchor_known(map: &ExpansionMap, requested: int, raw: RawDiagnostic) -> bool {
    &&& raw.anchor.file < map.files@.len()
    &&& map.root(raw.anchor.file as int) == requested
    &&& (map.files@[raw.anchor.file as int] is Real ==> raw.anchor.range.within(
        file_len(map.files@[raw.anchor.file as int]),
    ))
}

/// `anchor_known` holds of every diagnostic.
pub open spec fn anchors_known(map: &ExpansionMap, requested: int, raws: Seq<RawDiagnostic>) -> bool {
    forall|i: int| 0 <= i < raws.len() ==> anchor_known(map, requested, #[trigger] raws[i])
}

/// Tests `anchor_known`.
pub fn check_anchor(map: &ExpansionMap, requested: usize, raw: &RawDiagnostic) -> (b: bool)
    requires
        map.wf(),
    ensures
        b == anchor_known(map, requested as int, *raw),
{
    if raw.anchor.file >= map.files.len() {
        return false;
    }
    if map.original_file(raw.anchor.file) != requested {
        return false;
    }
    match &map.files[raw.anchor.file] {
        FileOrigin::Real { len, .. } => raw.anchor.range.start <= raw.anchor.range.end
            && raw.anchor.range.end <= *len,
        FileOrigin::Expansion { .. } => true,
    }
}

/// Tests `anchors_known`.
pub fn check_anchors(map: &ExpansionMap, requested: usize, raws: &Vec<RawDiagnostic>) -> (b: bool)
    requires
        map.wf(),
    ensures
        b == anchors_known(map, requested as int, raws@),
{
    let n: usize = raws.len();
    let mut k: usize = 0;
    while k < n
        invariant
            map.wf(),
            n == raws@.len(),
            0 <= k <= n,
            forall|i: int| 0 <= i < k ==> anchor_known(map, requested as int, #[trigger] raws@[i]),
        decreases n - k,
    {
        if !check_anchor(map, requested, &raws[k]) {
            return false;
        }
        k += 1;
    }
    true
}

/// Every parse error stands at a range of a text of `len` bytes.
pub open spec fn errors_in_text(errors: Seq<SyntaxError>, len: int) -> bool {
    forall|i: int| 0 <= i < errors.len() ==> (#[trigger] errors[i]).range.within(len)
}

/// Tests `errors_in_text`.
pub fn check_errors(errors: &Vec<SyntaxError>, len: usize) -> (b: bool)
    ensures
        b == errors_in_text(errors@, len as int),
{
    let n: usize = errors.len();
    let mut k: usize = 0;
    while k < n
        invariant
            n == errors@.len(),
            0 <= k <= n,
            forall|i: int| 0 <= i < k ==> (#[trigger] errors@[i]).range.within(len as int),
        decreases n - k,
    {
        let r = errors[k].range;
        if r.start > r.end || (r.end as usize) > len {
            return false;
        }
        k += 1;
    }
    true
}

/// Receives the semantic diagnostics of one pass, one by one, and turns each
/// into a diagnostic by the handler for its kind.
pub struct DiagnosticSink<'a> {
    pub map: &'a ExpansionMap,
    pub requested: usize,
    pub tree: &'a SyntaxTree,
    pub buffer: Vec<Diagnostic>,
}

impl<'a> DiagnosticSink<'a> {
    /// What the handlers rely on.
    pub open spec fn wf(&self) -> bool {
        &&& self.map.wf()
        &&& self.tree.wf()
        &&& self.requested < self.map.files@.len()
        &&& self.map.files@[self.requested as int] is Real
        &&& file_len(self.map.files@[self.requested as int]) == self.tree.text@.len()
    }

    /// A sink for the file `requested`, which starts with the diagnostics
    /// gathered so far.
    pub fn new(map: &'a ExpansionMap, requested: usize, tree: &'a SyntaxTree, buffer: Vec<Diagnostic>) -> (s:
        DiagnosticSink<'a>)
        requires
            map.wf(),
            tree.wf(),
            requested < map.files@.len(),
            map.files@[requested as int] is Real,
            file_len(map.files@[requested as int]) == tree.text@.len(),
        ensures
            s.wf(),
            s.map == map,
            s.requested == requested,
            s.tree == tree,
            s.buffer == buffer,
    {
        DiagnosticSink { map, requested, tree, buffer }
    }

    /// The identity of the requested file.
    pub fn file_id(&self) -> (id: FileId)
        requires
            self.wf(),
        ensures
            id == self.map.root_file_id(self.requested as int),
    {
        match &self.map.files[self.requested] {
            FileOrigin::Real { file_id, .. } => *file_id,
            FileOrigin::Expansion { .. } => FileId(0),
        }
    }

    /// The fix for `raw`, by the handler for its kind.
    pub fn fix(&self, raw: &RawDiagnostic) -> (r: Option<SourceChange>)
        requires
            self.wf(),
            raw.anchor.file < self.map.files@.len(),
        ensures
            fix_view(r) == fix_for(self.map, self.requested as int, self.tree, *raw),
            r matches Some(c) ==> c.wf(),
            fix_valid(
                fix_for(self.map, self.requested as int, self.tree, *raw),
                self.tree.text@.len() as int,
            ),
            fix_effect(self.map, self.requested as int, self.tree, *raw),
    {
        match &raw.kind {
            RawKind::UnresolvedModule { candidate } => unresolved_module_fix(
                self.map,
                raw.anchor.file,
                candidate,
            ),
            RawKind::MissingFields { field_list, missed_fields } => {
                if self.map.original_file(raw.anchor.file) == self.requested {
                    let at = self.map.original_range(InFile { file: raw.anchor.file, range: *field_list });
                    missing_fields_fix(self.tree, self.file_id(), at.range, missed_fields)
                } else {
                    None
                }
            },
            RawKind::MissingOkInTailExpr { expr } => {
                if self.map.original_file(raw.anchor.file) == self.requested {
                    let at = self.map.original_range(InFile { file: raw.anchor.file, range: *expr });
                    wrap_with_ok_fix(self.tree, self.file_id(), at.range)
                } else {
                    None
                }
            },
            RawKind::MissingMatchArms => None,
            RawKind::Other => None,
        }
    }

    /// Takes one semantic diagnostic and appends what it becomes.
    pub fn push(&mut self, raw: &RawDiagnostic)
        requires
            old(self).wf(),
            anchor_known(old(self).map, old(self).requested as int, *raw),
        ensures
            final(self).wf(),
            final(self).map == old(self).map,
            final(self).requested == old(self).requested,
            final(self).tree == old(self).tree,
            diagnostics_view(final(self).buffer@) == diagnostics_view(old(self).buffer@).push(
                converted(old(self).map, old(self).requested as int, old(self).tree, *raw),
            ),
            fix_valid(
                converted(old(self).map, old(self).requested as int, old(self).tree, *raw).fix,
                old(self).tree.text@.len() as int,
            ),
            converted(old(self).map, old(self).requested as int, old(self).tree, *raw).range.within(
                old(self).tree.text@.len() as int,
            ),
            fix_effect(old(self).map, old(self).requested as int, old(self).tree, *raw),
    {
        proof {
            lemma_root_range_within(self.map, raw.anchor.file as int, raw.anchor.range);
        }
        let fix = self.fix(raw);
        let range = self.map.original_range(raw.anchor).range;
        let d = Diagnostic { message: raw.message.clone(), range, severity: Severity::Error, fix };
        push_diagnostic(&mut self.buffer, d);
    }

    /// Ends the pass and hands the diagnostics back.
    pub fn into_diagnostics(self) -> (r: Vec<Diagnostic>)
        ensures
            r == self.buffer,
    {
        self.buffer
    }
}

/// Collects the diagnostics of the file `requested`, whose tree is `tree`:
/// parse errors as they are, then what the scanners find in each element of
/// the tree in turn, then the semantic diagnostics, if the file belongs to a
/// module (`semantic` is `None` where it does not).
pub fn diagnostics(
    map: &ExpansionMap,
    requested: usize,
    tree: &SyntaxTree,
    errors: &Vec<SyntaxError>,
    semantic: &Option<Vec<RawDiagnostic>>,
) -> (res: Vec<Diagnostic>)
    requires
        map.wf(),
        tree.wf(),
        requested < map.files@.len(),
        map.files@[requested as int] is Real,
        file_len(map.files@[requested as int]) == tree.text@.len(),
        errors_in_text(errors@, tree.text@.len() as int),
        semantic matches Some(raws) ==> anchors_known(map, requested as int, raws@),
    ensures
        diagnostics_view(res@) == collected(map, requested as int, tree, errors@, *semantic),
        all_fixes_valid(diagnostics_view(res@), tree.text@.len() as int),
        all_ranges_within(diagnostics_view(res@), tree.text@.len() as int),
        semantic matches Some(raws) ==> fix_effects(map, requested as int, tree, raws@),
{
    let mut res: Vec<Diagnostic> = Vec::new();
    let n: usize = errors.len();
    let mut k: usize = 0;
    assert(diagnostics_view(res@) =~= parse_diagnostics(errors@.subrange(0, 0)));
    while k < n
        invariant
            n == errors@.len(),
            0 <= k <= n,
            diagnostics_view(res@) == parse_diagnostics(errors@.subrange(0, k as int)),
            all_fixes_valid(diagnostics_view(res@), tree.text@.len() as int),
            all_ranges_within(diagnostics_view(res@), tree.text@.len() as int),
            errors_in_text(errors@, tree.text@.len() as int),
        decreases n - k,
    {
        let err = &errors[k];
        assert(errors@[k as int].range.within(tree.text@.len() as int));
        let d = Diagnostic {
            range: err.range,
            message: syntax_error_message(&err.message),
            severity: Severity::Error,
            fix: None,
        };
        push_diagnostic(&mut res, d);
        k += 1;
        assert(diagnostics_view(res@) =~= parse_diagnostics(errors@.subrange(0, k as int)));
    }
    assert(errors@.subrange(0, n as int) =~= errors@);

    let file_id: FileId = match &map.files[requested] {
        FileOrigin::Real { file_id, .. } => *file_id,
        FileOrigin::Expansion { .. } => FileId(0),
    };
    let m: usize = tree.len();
    let mut node: usize = 0;
    assert(diagnostics_view(res@) =~= parse_diagnostics(errors@) + structural_diagnostics(tree, file_id, 0));
    while node < m
        invariant
            tree.wf(),
            m == tree.elements@.len(),
            0 <= node <= m,
            diagnostics_view(res@) == parse_diagnostics(errors@) + structural_diagnostics(
                tree,
                file_id,
                node as nat,
            ),
            all_fixes_valid(diagnostics_view(res@), tree.text@.len() as int),
            all_ranges_within(diagnostics_view(res@), tree.text@.len() as int),
        decreases m - node,
    {
        let _ = check_unnecessary_braces_in_use_statement(&mut res, file_id, tree, node);
        let _ = check_struct_shorthand_initialization(&mut res, file_id, tree, node);
        node += 1;
        assert(diagnostics_view(res@) =~= parse_diagnostics(errors@) + structural_diagnostics(
            tree,
            file_id,
            node as nat,
        ));
    }
    let ghost head = diagnostics_view(res@);
    match semantic {
        Some(raws) => {
            let mut sink = DiagnosticSink::new(map, requested, tree, res);
            let count: usize = raws.len();
            let mut i: usize = 0;
            assert(diagnostics_view(sink.buffer@) =~= head + semantic_diagnostics(
                map,
                requested as int,
                tree,
                raws@.subrange(0, 0),
            ));
            while i < count
                invariant
                    sink.wf(),
                    sink.map == map,
                    sink.requested == requested,
                    sink.tree == tree,
                    count == raws@.len(),
                    0 <= i <= count,
                    anchors_known(map, requested as int, raws@),
                    diagnostics_view(sink.buffer@) == head + semantic_diagnostics(
                        map,
                        requested as int,
                        tree,
                        raws@.subrange(0, i as int),
                    ),
                    all_fixes_valid(diagnostics_view(sink.buffer@), tree.text@.len() as int),
                    all_ranges_within(diagnostics_view(sink.buffer@), tree.text@.len() as int),
                    fix_effects(map, requested as int, tree, raws@.subrange(0, i as int)),
                decreases count - i,
            {
                sink.push(&raws[i]);
                i += 1;
                assert(diagnostics_view(sink.buffer@) =~= head + semantic_diagnostics(
                    map,
                    requested as int,
                    tree,
                    raws@.subrange(0, i as int),
                ));
            }
            assert(raws@.subrange(0, count as int) =~= raws@);
            sink.into_diagnostics()
        },
        None => {
            assert(diagnostics_view(res@) =~= collected(map, requested as int, tree, errors@, *semantic));
            res
        },
    }
}

/// Why a pass was given up before it began.
#[derive(Clone, Copy, Debug, PartialEq, Eq, Structural)]
pub enum CollectError {
    /// The tree points outside its arena or its text.
    MalformedTree,
    /// Some produced text does not come from a range of an earlier file.
    MalformedLineage,
    /// The requested file is no real file of the arena.
    NotARealFile,
    /// The arena gives the requested file another length than its text has.
    TextMismatch,
    /// A parse error stands outside the text.
    StrayParseError,
    /// A semantic diagnostic is anchored in no file of the arena, in a file
    /// whose lineage starts outside the requested file, or outside its file.
    UnknownAnchor,
}

/// The defect in the inputs that is found first, if there is one.
pub open spec fn input_defect(
    map: &ExpansionMap,
    requested: int,
    tree: &SyntaxTree,
    errors: Seq<SyntaxError>,
    semantic: Option<Vec<RawDiagnostic>>,
) -> Option<CollectError> {
    if !tree.wf() {
        Some(CollectError::MalformedTree)
    } else if !map.wf() {
        Some(CollectError::MalformedLineage)
    } else if !(0 <= requested < map.files@.len() && map.files@[requested] is Real) {
        Some(CollectError::NotARealFile)
    } else if file_len(map.files@[requested]) != tree.text@.len() {
        Some(CollectError::TextMismatch)
    } else if !errors_in_text(errors, tree.text@.len() as int) {
        Some(CollectError::StrayParseError)
    } else if semantic matches Some(raws) && !anchors_known(map, requested, raws@) {
        Some(CollectError::UnknownAnchor)
    } else {
        None
    }
}

/// Collects as `diagnostics` does, for any inputs: a defect in them ends
/// the pass with an error, and nothing is collected.
pub fn try_diagnostics(
    map: &ExpansionMap,
    requested: usize,
    tree: &SyntaxTree,
    errors: &Vec<SyntaxError>,
    semantic: &Option<Vec<RawDiagnostic>>,
) -> (r: Result<Vec<Diagnostic>, CollectError>)
    ensures
        match input_defect(map, requested as int, tree, errors@, *semantic) {
            Some(e) => r == Err::<Vec<Diagnostic>, CollectError>(e),
            None => r matches Ok(res) && diagnostics_view(res@) == collected(
                map,
                requested as int,
                tree,
                errors@,
                *semantic,
            ) && all_fixes_valid(diagnostics_view(res@), tree.text@.len() as int) && all_ranges_within(
                diagnostics_view(res@),
                tree.text@.len() as int,
            ) && (semantic matches Some(raws) ==> fix_effects(map, requested as int, tree, raws@)),
        },
{
    if !tree.validate() {
        return Err(CollectError::MalformedTree);
    }
    if !map.validate() {
        return Err(CollectError::MalformedLineage);
    }
    if requested >= map.files.len() {
        return Err(CollectError::NotARealFile);
    }
    match &map.files[requested] {
        FileOrigin::Real { len, .. } => {
            if (*len as usize) != tree.text.len() {
                return Err(CollectError::TextMismatch);
            }
        },
        FileOrigin::Expansion { .. } => {
            return Err(CollectError::NotARealFile);
        },
    }
    if !check_errors(errors, tree.text.len()) {
        return Err(CollectError::StrayParseError);
    }
    match semantic {
        Some(raws) => {
            if !check_anchors(map, requested, raws) {
                return Err(CollectError::UnknownAnchor);
            }
        },
        None => {},
    }
    Ok(diagnostics(map, requested, tree, errors, semantic))
}

/// Two passes over the same snapshot give the same diagnostics, one for one
/// and in the same order: the result is a function of the inputs.
pub proof fn lemma_collection_is_deterministic(
    map: &ExpansionMap,
    requested: int,
    tree: &SyntaxTree,
    errors: Seq<SyntaxError>,
    semantic: Option<Vec<RawDiagnostic>>,
    first: Seq<DiagnosticView>,
    second: Seq<DiagnosticView>,
)
    requires
        first == collected(map, requested, tree, errors, semantic),
        second == collected(map, requested, tree, errors, semantic),
    ensures
        first == second,
{
}

/// Every semantic diagnostic is reported at a range of a real file: its
/// anchor, walked out of every layer of expansion. For an anchor inside an
/// expansion the range is not empty and lies inside that file; for an anchor
/// in a real file it is the anchor's own range. Where the lineage of the
/// anchor starts in the requested file, that file is the one reported.
pub proof fn lemma_converted_range_in_real_file(
    map: &ExpansionMap,
    requested: int,
    tree: &SyntaxTree,
    raw: RawDiagnostic,
)
    requires
        map.wf(),
        raw.anchor.file < map.files@.len(),
        map.files@[raw.anchor.file as int] is Real ==> raw.anchor.range.start < raw.anchor.range.end
            && raw.anchor.range.end <= file_len(map.files@[raw.anchor.file as int]),
    ensures
        map.files@[map.root(raw.anchor.file as int)] is Real,
        converted(map, requested, tree, raw).range == map.reconcile(
            raw.anchor.file as int,
            raw.anchor.range,
        ).range,
        converted(map, requested, tree, raw).range.start < converted(map, requested, tree, raw).range.end,
        converted(map, requested, tree, raw).range.end <= file_len(
            map.files@[map.root(raw.anchor.file as int)],
        ),
        map.root(raw.anchor.file as int) == requested ==> map.reconcile(
            raw.anchor.file as int,
            raw.anchor.range,
        ).file_id == map.root_file_id(requested),
{
    crate::reconcile::lemma_reconciled_in_real_file(map, raw.anchor.file as int, raw.anchor.range);
}

} // verus!
