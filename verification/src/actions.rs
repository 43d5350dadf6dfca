//! The code action provider: quick fixes derived deterministically from
//! diagnostics (keyed by their stable codes), generic refactoring
//! commands that are always offered, and a fix-all operation applying
//! only the unambiguous single-choice fixes.

use vstd::prelude::*;

use crate::diag::{
    dviews, mk_range, range_v, DiagCode, DiagView, Diagnostic, PosView, Position, Range, RangeView,
    TextEdit, TextEditView,
};
use crate::refactor::RefactorEngine;

verus! {

#[derive(Clone, Copy, Debug, PartialEq, Eq, Structural)]
pub enum ActionKind {
    QuickFix,
    Refactor,
}

/// The edits of one document inside a workspace edit.
#[derive(Clone, Debug, PartialEq)]
pub struct DocumentEdit {
    pub uri: String,
    pub edits: Vec<TextEdit>,
}

/// Ghost counterpart of `DocumentEdit`.
#[verifier::ext_equal]
pub struct DocumentEditView {
    pub uri: Seq<char>,
    pub edits: Seq<TextEditView>,
}

impl View for DocumentEdit {
    type V = DocumentEditView;

    open spec fn view(&self) -> DocumentEditView {
        DocumentEditView { uri: self.uri@, edits: crate::diag::teviews(self.edits@) }
    }
}

/// A set of per-document text-edit lists, applied together atomically.
#[derive(Clone, Debug, PartialEq)]
pub struct WorkspaceEdit {
    pub changes: Vec<DocumentEdit>,
}

/// Ghost counterpart of `WorkspaceEdit`.
#[verifier::ext_equal]
pub struct WorkspaceEditView {
    pub changes: Seq<DocumentEditView>,
}

impl View for WorkspaceEdit {
    type V = WorkspaceEditView;

    open spec fn view(&self) -> WorkspaceEditView {
        WorkspaceEditView { changes: self.changes@.map_values(|d: DocumentEdit| d@) }
    }
}

/// Opaque arguments carried by a refactoring command: the document and
/// either the selection or its start position.
#[derive(Clone, Debug, PartialEq)]
pub enum CommandArgs {
    UriRange(String, Range),
    UriPosition(String, Position),
}

/// Ghost counterpart of `CommandArgs`.
#[verifier::ext_equal]
pub enum CommandArgsView {
    UriRange(Seq<char>, RangeView),
    UriPosition(Seq<char>, PosView),
}

impl View for CommandArgs {
    type V = CommandArgsView;

    open spec fn view(&self) -> CommandArgsView {
        match self {
            CommandArgs::UriRange(u, r) => CommandArgsView::UriRange(u@, r@),
            CommandArgs::UriPosition(u, p) => CommandArgsView::UriPosition(u@, p@),
        }
    }
}

/// A named command resolved later by the editor client.
#[derive(Clone, Debug, PartialEq)]
pub struct Command {
    pub title: String,
    pub command: String,
    pub args: CommandArgs,
}

/// Ghost counterpart of `Command`.
#[verifier::ext_equal]
pub struct CommandView {
    pub title: Seq<char>,
    pub command: Seq<char>,
    pub args: CommandArgsView,
}

impl View for Command {
    type V = CommandView;

    open spec fn view(&self) -> CommandView {
        CommandView { title: self.title@, command: self.command@, args: self.args@ }
    }
}

/// Either a workspace edit (quick fixes) or a named command
/// (refactorings), never both.
#[derive(Clone, Debug, PartialEq)]
pub struct CodeAction {
    pub title: String,
    pub kind: ActionKind,
    pub diagnostics: Vec<Diagnostic>,
    pub is_preferred: bool,
    pub edit: Option<WorkspaceEdit>,
    pub command: Option<Command>,
}

/// Ghost counterpart of `CodeAction`.
#[verifier::ext_equal]
pub struct CodeActionView {
    pub title: Seq<char>,
    pub kind: ActionKind,
    pub diagnostics: Seq<DiagView>,
    pub is_preferred: bool,
    pub edit: Option<WorkspaceEditView>,
    pub command: Option<CommandView>,
}

impl View for CodeAction {
    type V = CodeActionView;

    open spec fn view(&self) -> CodeActionView {
        CodeActionView {
            title: self.title@,
            kind: self.kind,
            diagnostics: dviews(self.diagnostics@),
            is_preferred: self.is_preferred,
            edit: match self.edit {
                Some(w) => Some(w@),
                None => None,
            },
            command: match self.command {
                Some(c) => Some(c@),
                None => None,
            },
        }
    }
}

/// The views of a sequence of code actions.
pub open spec fn caviews(s: Seq<CodeAction>) -> Seq<CodeActionView> {
    s.map_values(|a: CodeAction| a@)
}

pub proof fn lemma_caviews_push(s: Seq<CodeAction>, a: CodeAction)
    ensures
        caviews(s.push(a)) =~= caviews(s).push(a@),
{
}

pub proof fn lemma_caviews_add(a: Seq<CodeAction>, b: Seq<CodeAction>)
    ensures
        caviews(a + b) =~= caviews(a) + caviews(b),
{
}

/// Line-granularity overlap between a requested range and a diagnostic.
pub open spec fn spec_range_overlaps(r1: RangeView, r2: RangeView) -> bool {
    r1.start.line <= r2.end.line && r1.end.line >= r2.start.line
}

/// Whether the two ranges touch the same lines.
pub fn range_overlaps(r1: &Range, r2: &Range) -> (b: bool)
    ensures
        b == spec_range_overlaps(r1@, r2@),
{
    r1.start.line <= r2.end.line && r1.end.line >= r2.start.line
}

/// A quick fix whose edit replaces `range` of the document with `text`.
pub open spec fn qf_view(
    uri: Seq<char>,
    d: DiagView,
    title: Seq<char>,
    range: RangeView,
    text: Seq<char>,
    preferred: bool,
) -> CodeActionView {
    CodeActionView {
        title: title,
        kind: ActionKind::QuickFix,
        diagnostics: seq![d],
        is_preferred: preferred,
        edit: Some(
            WorkspaceEditView {
                changes: seq![
                    DocumentEditView {
                        uri: uri,
                        edits: seq![TextEditView { range: range, new_text: text }],
                    },
                ],
            },
        ),
        command: None,
    }
}

/// The quick fixes derived from one diagnostic, keyed by its code.
pub open spec fn fixes_for(uri: Seq<char>, d: DiagView) -> Seq<CodeActionView> {
    match d.code {
        DiagCode::PossibleAssignment => seq![
            qf_view(uri, d, "Replace = with =="@, d.range, "=="@, true),
        ],
        DiagCode::UnknownIo => seq![qf_view(uri, d, "Change to io.print"@, d.range, "io.print"@, true)],
        DiagCode::SinRadians => seq![
            qf_view(uri, d, "Wrap in math.radians()"@, d.range, "math.radians("@, true),
            qf_view(
                uri,
                d,
                "Convert to degrees manually"@,
                d.range,
                "math.sin(deg * (3.141592653589793 / 180))"@,
                false,
            ),
        ],
        DiagCode::CosRadians => seq![
            qf_view(uri, d, "Wrap in math.radians()"@, d.range, "math.radians("@, true),
            qf_view(
                uri,
                d,
                "Convert to degrees manually"@,
                d.range,
                "math.cos(deg * (3.141592653589793 / 180))"@,
                false,
            ),
        ],
        DiagCode::MissingReturn => seq![
            qf_view(uri, d, "Add return statement"@, d.range, "\n    return null;"@, true),
        ],
        DiagCode::UnusedVariable => seq![
            qf_view(
                uri,
                d,
                "Remove unused variable"@,
                range_v(d.range.start.line, 0, d.range.start.line + 1, 0),
                Seq::empty(),
                false,
            ),
            qf_view(
                uri,
                d,
                "Prefix with _ to indicate intentionally unused"@,
                RangeView { start: d.range.start, end: d.range.start },
                "_"@,
                false,
            ),
        ],
        _ => Seq::empty(),
    }
}

/// Quick fixes for the diagnostics among the first `n` that overlap the
/// requested range.
pub open spec fn spec_quick_fixes_upto(
    uri: Seq<char>,
    range: RangeView,
    ds: Seq<DiagView>,
    n: int,
) -> Seq<CodeActionView>
    decreases n
        when 0 <= n <= ds.len()
{
    if n <= 0 {
        Seq::empty()
    } else {
        spec_quick_fixes_upto(uri, range, ds, n - 1) + (if spec_range_overlaps(
            range,
            ds[n - 1].range,
        ) {
            fixes_for(uri, ds[n - 1])
        } else {
            Seq::empty()
        })
    }
}

/// Quick fixes for all overlapping diagnostics, in input order.
pub open spec fn spec_quick_fixes(uri: Seq<char>, range: RangeView, ds: Seq<DiagView>) -> Seq<
    CodeActionView,
> {
    spec_quick_fixes_upto(uri, range, ds, ds.len() as int)
}

fn dup_one_diag_vec(d: &Diagnostic) -> (r: Vec<Diagnostic>)
    ensures
        dviews(r@) =~= seq![d@],
{
    let mut r: Vec<Diagnostic> = Vec::new();
    let c = crate::diag::dup_diag(d);
    r.push(c);
    proof {
        assert(dviews(r@) =~= seq![d@]);
    }
    r
}

/// Builds the quick fix that replaces `range` with `text`.
fn mk_quick_fix(uri: &str, d: &Diagnostic, title: String, range: Range, text: String, preferred: bool) -> (a:
    CodeAction)
    ensures
        a@ == qf_view(uri@, d@, title@, range@, text@, preferred),
{
    let edits_vec = {
        let mut v: Vec<TextEdit> = Vec::new();
        v.push(TextEdit { range, new_text: text });
        v
    };
    let doc_edit = DocumentEdit { uri: String::from_str(uri), edits: edits_vec };
    let changes = {
        let mut v: Vec<DocumentEdit> = Vec::new();
        v.push(doc_edit);
        v
    };
    let a = CodeAction {
        title,
        kind: ActionKind::QuickFix,
        diagnostics: dup_one_diag_vec(d),
        is_preferred: preferred,
        edit: Some(WorkspaceEdit { changes }),
        command: None,
    };
    proof {
        let q = qf_view(uri@, d@, title@, range@, text@, preferred);
        let ac = a@.edit.unwrap().changes;
        let qc = q.edit.unwrap().changes;
        assert(ac.len() == 1);
        assert(ac[0].edits =~= qc[0].edits);
        assert(ac[0] =~~= qc[0]);
        assert(ac =~~= qc);
        assert(a@ =~~= q);
    }
    a
}

impl CodeActionProvider {
    /// Quick fixes for the given diagnostics that overlap `range`: one
    /// or more deterministic fixes per recognized diagnostic code.
    pub fn get_quick_fixes(
        &self,
        uri: &str,
        range: Range,
        diagnostics: Option<&Vec<Diagnostic>>,
    ) -> (out: Vec<CodeAction>)
        requires
            match diagnostics {
                Some(ds) => forall|i: int|
                    0 <= i < ds@.len() ==> (#[trigger] ds@[i]).range.start.line < usize::MAX,
                None => true,
            },
        ensures
            match diagnostics {
                Some(ds) => caviews(out@) == spec_quick_fixes(uri@, range@, dviews(ds@)),
                None => out@ =~= Seq::<CodeAction>::empty(),
            },
    {
        let mut out: Vec<CodeAction> = Vec::new();
        let ds = match diagnostics {
            None => {
                return out;
            },
            Some(ds) => ds,
        };
        let ghost dv = dviews(ds@);
        let mut i: usize = 0;
        while i < ds.len()
            invariant
                0 <= i <= ds@.len(),
                dv == dviews(ds@),
                forall|k: int|
                    0 <= k < ds@.len() ==> (#[trigger] ds@[k]).range.start.line < usize::MAX,
                caviews(out@) =~= spec_quick_fixes_upto(uri@, range@, dv, i as int),
            decreases ds@.len() - i,
        {
            let d = &ds[i];
            proof {
                assert(dv[i as int] == ds@[i as int]@);
            }
            if range_overlaps(&range, &d.range) {
                match d.code {
                    DiagCode::PossibleAssignment => {
                        let a = mk_quick_fix(
                            uri,
                            d,
                            String::from_str("Replace = with =="),
                            d.range,
                            String::from_str("=="),
                            true,
                        );
                        proof {
                            lemma_caviews_push(out@, a);
                        }
                        out.push(a);
                    },
                    DiagCode::UnknownIo => {
                        let a = mk_quick_fix(
                            uri,
                            d,
                            String::from_str("Change to io.print"),
                            d.range,
                            String::from_str("io.print"),
                            true,
                        );
                        proof {
                            lemma_caviews_push(out@, a);
                        }
                        out.push(a);
                    },
                    DiagCode::SinRadians => {
                        let a = mk_quick_fix(
                            uri,
                            d,
                            String::from_str("Wrap in math.radians()"),
                            d.range,
                            String::from_str("math.radians("),
                            true,
                        );
                        proof {
                            lemma_caviews_push(out@, a);
                        }
                        out.push(a);
                        let b = mk_quick_fix(
                            uri,
                            d,
                            String::from_str("Convert to degrees manually"),
                            d.range,
                            String::from_str("math.sin(deg * (3.141592653589793 / 180))"),
                            false,
                        );
                        proof {
                            lemma_caviews_push(out@, b);
                        }
                        out.push(b);
                    },
                    DiagCode::CosRadians => {
                        let a = mk_quick_fix(
                            uri,
                            d,
                            String::from_str("Wrap in math.radians()"),
                            d.range,
                            String::from_str("math.radians("),
                            true,
                        );
                        proof {
                            lemma_caviews_push(out@, a);
                        }
                        out.push(a);
                        let b = mk_quick_fix(
                            uri,
                            d,
                            String::from_str("Convert to degrees manually"),
                            d.range,
                            String::from_str("math.cos(deg * (3.141592653589793 / 180))"),
                            false,
                        );
                        proof {
                            lemma_caviews_push(out@, b);
                        }
                        out.push(b);
                    },
                    DiagCode::MissingReturn => {
                        let a = mk_quick_fix(
                            uri,
                            d,
                            String::from_str("Add return statement"),
                            d.range,
                            String::from_str("\n    return null;"),
                            true,
                        );
                        proof {
                            lemma_caviews_push(out@, a);
                        }
                        out.push(a);
                    },
                    DiagCode::UnusedVariable => {
                        let ln = d.range.start.line;
                        let a = mk_quick_fix(
                            uri,
                            d,
                            String::from_str("Remove unused variable"),
                            mk_range(ln, 0, ln + 1, 0),
                            String::new(),
                            false,
                        );
                        proof {
                            lemma_caviews_push(out@, a);
                        }
                        out.push(a);
                        let b = mk_quick_fix(
                            uri,
                            d,
                            String::from_str("Prefix with _ to indicate intentionally unused"),
                            Range { start: d.range.start, end: d.range.start },
                            String::from_str("_"),
                            false,
                        );
                        proof {
                            lemma_caviews_push(out@, b);
                        }
                        out.push(b);
                    },
                    _ => {},
                }
            }
            proof {
                assert(spec_quick_fixes_upto(uri@, range@, dv, i + 1 as int)
                    == spec_quick_fixes_upto(uri@, range@, dv, i as int) + (if spec_range_overlaps(
                    range@,
                    dv[i as int].range,
                ) {
                    fixes_for(uri@, dv[i as int])
                } else {
                    Seq::<CodeActionView>::empty()
                }));
                assert(caviews(out@) =~= spec_quick_fixes_upto(uri@, range@, dv, i + 1 as int));
            }
            i += 1;
        }
        out
    }
}

pub struct CodeActionProvider {
    pub refactor_engine: RefactorEngine,
}

/// A refactoring surfaced as a named command with opaque arguments,
/// resolved later by the client; the provider computes no edit for it.
pub open spec fn cmd_view(title: Seq<char>, id: Seq<char>, args: CommandArgsView) -> CodeActionView {
    CodeActionView {
        title: title,
        kind: ActionKind::Refactor,
        diagnostics: Seq::empty(),
        is_preferred: false,
        edit: None,
        command: Some(CommandView { title: title, command: id, args: args }),
    }
}

/// The seven refactoring commands, always offered for a selection.
pub open spec fn spec_refactorings(uri: Seq<char>, range: RangeView) -> Seq<CodeActionView> {
    seq![
        cmd_view(
            "Extract Function"@,
            "rads.extractFunction"@,
            CommandArgsView::UriRange(uri, range),
        ),
        cmd_view(
            "Extract Variable"@,
            "rads.extractVariable"@,
            CommandArgsView::UriRange(uri, range),
        ),
        cmd_view(
            "Inline Function"@,
            "rads.inlineFunction"@,
            CommandArgsView::UriPosition(uri, range.start),
        ),
        cmd_view(
            "Add Async to Function"@,
            "rads.addAsync"@,
            CommandArgsView::UriPosition(uri, range.start),
        ),
        cmd_view(
            "Add Return Type"@,
            "rads.addReturnType"@,
            CommandArgsView::UriPosition(uri, range.start),
        ),
        cmd_view(
            "Simplify Expression"@,
            "rads.simplifyExpression"@,
            CommandArgsView::UriRange(uri, range),
        ),
        cmd_view(
            "Add Error Handling"@,
            "rads.addErrorHandling"@,
            CommandArgsView::UriRange(uri, range),
        ),
    ]
}

fn mk_command_action(title: &str, id: &str, args: CommandArgs) -> (a: CodeAction)
    ensures
        a@ == cmd_view(title@, id@, args@),
{
    let a = CodeAction {
        title: String::from_str(title),
        kind: ActionKind::Refactor,
        diagnostics: Vec::new(),
        is_preferred: false,
        edit: None,
        command: Some(
            Command { title: String::from_str(title), command: String::from_str(id), args },
        ),
    };
    proof {
        assert(a@.diagnostics =~= Seq::<DiagView>::empty());
        assert(a@ =~~= cmd_view(title@, id@, args@));
    }
    a
}

impl CodeActionProvider {
    pub fn new() -> (r: Self)
        ensures
            r.refactor_engine.docs_view() == Map::<Seq<char>, Seq<char>>::empty(),
    {
        CodeActionProvider { refactor_engine: RefactorEngine::new() }
    }

    /// Hands the document's text to the refactor engine.
    pub fn register_document(&mut self, uri: &str, text: &str)
        ensures
            final(self).refactor_engine.docs_view() == old(
                self,
            ).refactor_engine.docs_view().insert(uri@, text@),
    {
        self.refactor_engine.register_document(uri, text);
    }

    /// Removes the document from the refactor engine.
    pub fn unregister_document(&mut self, uri: &str)
        ensures
            final(self).refactor_engine.docs_view() == old(
                self,
            ).refactor_engine.docs_view().remove(uri@),
    {
        self.refactor_engine.unregister_document(uri);
    }

    /// The refactoring commands, independent of diagnostics and cursor
    /// content.
    pub fn get_refactorings(&self, uri: &str, range: Range) -> (out: Vec<CodeAction>)
        ensures
            caviews(out@) == spec_refactorings(uri@, range@),
    {
        let mut out: Vec<CodeAction> = Vec::new();
        let a1 = mk_command_action(
            "Extract Function",
            "rads.extractFunction",
            CommandArgs::UriRange(String::from_str(uri), range),
        );
        proof {
            lemma_caviews_push(out@, a1);
        }
        out.push(a1);
        let a2 = mk_command_action(
            "Extract Variable",
            "rads.extractVariable",
            CommandArgs::UriRange(String::from_str(uri), range),
        );
        proof {
            lemma_caviews_push(out@, a2);
        }
        out.push(a2);
        let a3 = mk_command_action(
            "Inline Function",
            "rads.inlineFunction",
            CommandArgs::UriPosition(String::from_str(uri), range.start),
        );
        proof {
            lemma_caviews_push(out@, a3);
        }
        out.push(a3);
        let a4 = mk_command_action(
            "Add Async to Function",
            "rads.addAsync",
            CommandArgs::UriPosition(String::from_str(uri), range.start),
        );
        proof {
            lemma_caviews_push(out@, a4);
        }
        out.push(a4);
        let a5 = mk_command_action(
            "Add Return Type",
            "rads.addReturnType",
            CommandArgs::UriPosition(String::from_str(uri), range.start),
        );
        proof {
            lemma_caviews_push(out@, a5);
        }
        out.push(a5);
        let a6 = mk_command_action(
            "Simplify Expression",
            "rads.simplifyExpression",
            CommandArgs::UriRange(String::from_str(uri), range),
        );
        proof {
            lemma_caviews_push(out@, a6);
        }
        out.push(a6);
        let a7 = mk_command_action(
            "Add Error Handling",
            "rads.addErrorHandling",
            CommandArgs::UriRange(String::from_str(uri), range),
        );
        proof {
            lemma_caviews_push(out@, a7);
        }
        out.push(a7);
        proof {
            assert(caviews(out@) =~= spec_refactorings(uri@, range@));
        }
        out
    }

    /// Quick fixes for the overlapping diagnostics, followed by the
    /// always-offered refactoring commands.
    pub fn get_code_actions(
        &self,
        uri: &str,
        range: Range,
        diagnostics: Option<Vec<Diagnostic>>,
    ) -> (out: Vec<CodeAction>)
        requires
            match diagnostics {
                Some(ds) => forall|i: int|
                    0 <= i < ds@.len() ==> (#[trigger] ds@[i]).range.start.line < usize::MAX,
                None => true,
            },
        ensures
            caviews(out@) == (match diagnostics {
                Some(ds) => spec_quick_fixes(uri@, range@, dviews(ds@)),
                None => Seq::<CodeActionView>::empty(),
            }) + spec_refactorings(uri@, range@),
    {
        let mut out = self.get_quick_fixes(uri, range, diagnostics.as_ref());
        let mut refs = self.get_refactorings(uri, range);
        proof {
            lemma_caviews_add(out@, refs@);
        }
        out.append(&mut refs);
        out
    }
}

/// A workspace edit that replaces the whole document, from the start to
/// the first column past its last line.
pub open spec fn full_edit_view(uri: Seq<char>, end_line: int, t: Seq<char>) -> WorkspaceEditView {
    WorkspaceEditView {
        changes: seq![
            DocumentEditView {
                uri: uri,
                edits: seq![TextEditView { range: range_v(0, 0, end_line, 0), new_text: t }],
            },
        ],
    }
}

fn mk_full_edit(uri: &str, end_line: usize, new_text: String) -> (w: WorkspaceEdit)
    ensures
        w@ == full_edit_view(uri@, end_line as int, new_text@),
{
    let mut edits: Vec<TextEdit> = Vec::new();
    edits.push(TextEdit { range: mk_range(0, 0, end_line, 0), new_text });
    let doc_edit = DocumentEdit { uri: String::from_str(uri), edits };
    let mut changes: Vec<DocumentEdit> = Vec::new();
    changes.push(doc_edit);
    let w = WorkspaceEdit { changes };
    proof {
        let q = full_edit_view(uri@, end_line as int, w@.changes[0].edits[0].new_text);
        assert(w@.changes[0].edits =~= q.changes[0].edits);
        assert(w@.changes[0] =~~= q.changes[0]);
        assert(w@.changes =~~= q.changes);
        assert(w@ =~~= q);
    }
    w
}

/// Whether the line, after leading whitespace, is an `import ` line.
pub open spec fn is_import_line(line: Seq<char>) -> bool {
    crate::text::has_prefix(line.skip(crate::text::leading_ws(line)), "import "@)
}

fn import_line(line: &[char]) -> (b: bool)
    ensures
        b == is_import_line(line@),
{
    proof {
        crate::text::lemma_leading_ws(line@);
    }
    let mut a: usize = 0;
    while a < line.len() && crate::text::space_char(line[a])
        invariant
            0 <= a <= line@.len(),
            forall|k: int| 0 <= k < a ==> crate::text::is_space(line@[k]),
        decreases line@.len() - a,
    {
        a += 1;
    }
    proof {
        crate::text::lemma_leading_ws_at(line@, a as int);
    }
    let rest = vstd::slice::slice_subrange(line, a, line.len());
    proof {
        assert(rest@ =~= line@.skip(crate::text::leading_ws(line@)));
    }
    crate::text::starts_with_str(rest, "import ")
}

/// The import lines among the first `n` lines.
pub open spec fn import_lines_upto(ls: Seq<Seq<char>>, n: int) -> Seq<Seq<char>>
    decreases n
        when 0 <= n <= ls.len()
{
    if n <= 0 {
        Seq::empty()
    } else {
        import_lines_upto(ls, n - 1) + (if is_import_line(ls[n - 1]) {
            seq![ls[n - 1]]
        } else {
            Seq::empty()
        })
    }
}

/// The non-import lines among the first `n` lines.
pub open spec fn other_lines_upto(ls: Seq<Seq<char>>, n: int) -> Seq<Seq<char>>
    decreases n
        when 0 <= n <= ls.len()
{
    if n <= 0 {
        Seq::empty()
    } else {
        other_lines_upto(ls, n - 1) + (if is_import_line(ls[n - 1]) {
            Seq::empty()
        } else {
            seq![ls[n - 1]]
        })
    }
}

/// The reorganized text: imports sorted and deduplicated at the top, a
/// blank line, then the remaining lines in their original order.
pub open spec fn spec_organized_text(ls: Seq<Seq<char>>) -> Seq<char> {
    crate::text::join_sep(
        crate::text::dedup_adjacent(crate::text::lex_sort(import_lines_upto(ls, ls.len() as int))),
        "\n"@,
    ) + "\n\n"@ + crate::text::join_sep(other_lines_upto(ls, ls.len() as int), "\n"@)
}

/// Moves every `import ` line, sorted and deduplicated, to the top of
/// the document, as one whole-document replacement edit.
pub fn organize_imports(uri: &str, text: &str) -> (w: WorkspaceEdit)
    ensures
        w@ == full_edit_view(
            uri@,
            crate::text::spec_lines(text@).len() as int,
            spec_organized_text(crate::text::spec_lines(text@)),
        ),
{
    let lines = crate::text::split_lines(text);
    let ghost lv = crate::text::line_views(lines@);
    let mut imports: Vec<Vec<char>> = Vec::new();
    let mut others: Vec<Vec<char>> = Vec::new();
    let mut i: usize = 0;
    while i < lines.len()
        invariant
            0 <= i <= lines@.len(),
            lv == crate::text::line_views(lines@),
            crate::text::line_views(imports@) =~= import_lines_upto(lv, i as int),
            crate::text::line_views(others@) =~= other_lines_upto(lv, i as int),
        decreases lines@.len() - i,
    {
        proof {
            assert(lv[i as int] == lines@[i as int]@);
        }
        let line = vstd::slice::slice_to_vec(lines[i].as_slice());
        if import_line(line.as_slice()) {
            imports.push(line);
        } else {
            others.push(line);
        }
        proof {
            assert(import_lines_upto(lv, i + 1 as int) == import_lines_upto(lv, i as int) + (
            if is_import_line(lv[i as int]) {
                seq![lv[i as int]]
            } else {
                Seq::<Seq<char>>::empty()
            }));
            assert(other_lines_upto(lv, i + 1 as int) == other_lines_upto(lv, i as int) + (
            if is_import_line(lv[i as int]) {
                Seq::<Seq<char>>::empty()
            } else {
                seq![lv[i as int]]
            }));
            assert(crate::text::line_views(imports@) =~= import_lines_upto(lv, i + 1 as int));
            assert(crate::text::line_views(others@) =~= other_lines_upto(lv, i + 1 as int));
        }
        i += 1;
    }
    let sorted = crate::text::lex_sort_in(&imports);
    let unique = crate::text::dedup_adjacent_in(&sorted);
    let mut new_text = crate::text::join_chars(unique.as_slice(), "\n");
    new_text.append("\n\n");
    let tail = crate::text::join_chars(others.as_slice(), "\n");
    new_text.append(tail.as_str());
    mk_full_edit(uri, lines.len(), new_text)
}

/// Two spaces per indentation level.
pub open spec fn indent(d: int) -> Seq<char>
    decreases d
        when d >= 0
{
    if d <= 0 {
        Seq::empty()
    } else {
        seq![' ', ' '] + indent(d - 1)
    }
}

pub proof fn lemma_indent(d: int)
    requires
        d >= 0,
    ensures
        indent(d).len() == 2 * d,
        forall|j: int| 0 <= j < 2 * d ==> indent(d)[j] == ' ',
    decreases d,
{
    if d > 0 {
        lemma_indent(d - 1);
    }
}

/// The depth at which a trimmed line is printed: a closing brace first
/// steps back out of its block.
pub open spec fn pre_depth(t: Seq<char>, d: int) -> int {
    if t.len() > 0 && t[0] == '}' && d > 0 {
        d - 1
    } else {
        d
    }
}

/// The depth after a trimmed line: a trailing opening brace opens a block.
pub open spec fn next_depth(t: Seq<char>, d: int) -> int {
    pre_depth(t, d) + (if t.len() > 0 && t.last() == '{' {
        1int
    } else {
        0int
    })
}

/// A line with leading whitespace removed.
pub open spec fn trimmed_of(line: Seq<char>) -> Seq<char> {
    line.skip(crate::text::leading_ws(line))
}

/// One re-indented line: blank lines stay empty.
pub open spec fn fmt_line(t: Seq<char>, d: int) -> Seq<char> {
    if t.len() == 0 {
        Seq::empty()
    } else {
        indent(pre_depth(t, d)) + t
    }
}

/// The block depth before line `n`.
pub open spec fn depth_upto(ls: Seq<Seq<char>>, n: int) -> int
    decreases n
        when 0 <= n <= ls.len()
{
    if n <= 0 {
        0
    } else {
        next_depth(trimmed_of(ls[n - 1]), depth_upto(ls, n - 1))
    }
}

/// The first `n` lines re-indented by block depth.
pub open spec fn fmt_upto(ls: Seq<Seq<char>>, n: int) -> Seq<Seq<char>>
    decreases n
        when 0 <= n <= ls.len()
{
    if n <= 0 {
        Seq::empty()
    } else {
        fmt_upto(ls, n - 1) + seq![fmt_line(trimmed_of(ls[n - 1]), depth_upto(ls, n - 1))]
    }
}

/// The whole document re-indented.
pub open spec fn spec_formatted_text(ls: Seq<Seq<char>>) -> Seq<char> {
    crate::text::join_sep(fmt_upto(ls, ls.len() as int), "\n"@)
}

fn trim_start_in(line: &[char]) -> (r: Vec<char>)
    ensures
        r@ == trimmed_of(line@),
{
    proof {
        crate::text::lemma_leading_ws(line@);
    }
    let mut a: usize = 0;
    while a < line.len() && crate::text::space_char(line[a])
        invariant
            0 <= a <= line@.len(),
            forall|k: int| 0 <= k < a ==> crate::text::is_space(line@[k]),
        decreases line@.len() - a,
    {
        a += 1;
    }
    proof {
        crate::text::lemma_leading_ws_at(line@, a as int);
    }
    let rest = vstd::slice::slice_subrange(line, a, line.len());
    vstd::slice::slice_to_vec(rest)
}

/// Re-indents every line by its block depth (two spaces per open brace),
/// as one whole-document replacement edit.
pub fn format_document(uri: &str, text: &str) -> (w: WorkspaceEdit)
    ensures
        w@ == full_edit_view(
            uri@,
            crate::text::spec_lines(text@).len() as int,
            spec_formatted_text(crate::text::spec_lines(text@)),
        ),
{
    let lines = crate::text::split_lines(text);
    let ghost lv = crate::text::line_views(lines@);
    let mut formatted: Vec<Vec<char>> = Vec::new();
    let mut depth: usize = 0;
    let mut i: usize = 0;
    while i < lines.len()
        invariant
            0 <= i <= lines@.len(),
            lv == crate::text::line_views(lines@),
            depth <= i,
            depth == depth_upto(lv, i as int),
            crate::text::line_views(formatted@) =~= fmt_upto(lv, i as int),
        decreases lines@.len() - i,
    {
        proof {
            assert(lv[i as int] == lines@[i as int]@);
        }
        let mut t = trim_start_in(lines[i].as_slice());
        let d1: usize = if t.len() > 0 && t[0] == '}' && depth > 0 {
            depth - 1
        } else {
            depth
        };
        let mut fl: Vec<char> = Vec::new();
        if t.len() > 0 {
            let mut k: usize = 0;
            while k < d1
                invariant
                    0 <= k <= d1,
                    fl@ =~= indent(k as int),
                decreases d1 - k,
            {
                fl.push(' ');
                fl.push(' ');
                proof {
                    lemma_indent(k as int);
                    lemma_indent(k + 1 as int);
                    assert(fl@ =~= indent(k + 1 as int));
                }
                k += 1;
            }
            let next = if t.len() > 0 && t[t.len() - 1] == '{' {
                d1 + 1
            } else {
                d1
            };
            fl.append(&mut t);
            formatted.push(fl);
            depth = next;
        } else {
            formatted.push(fl);
            depth = d1;
        }
        proof {
            assert(depth_upto(lv, i + 1 as int) == next_depth(
                trimmed_of(lv[i as int]),
                depth_upto(lv, i as int),
            ));
            assert(fmt_upto(lv, i + 1 as int) == fmt_upto(lv, i as int) + seq![
                fmt_line(trimmed_of(lv[i as int]), depth_upto(lv, i as int)),
            ]);
            assert(crate::text::line_views(formatted@) =~= fmt_upto(lv, i + 1 as int));
        }
        i += 1;
    }
    let new_text = crate::text::join_chars(formatted.as_slice(), "\n");
    mk_full_edit(uri, lines.len(), new_text)
}

/// The single replacement applied by fix-all for one diagnostic, for the
/// unambiguous single-choice codes only.
pub open spec fn fix_all_edit_for(d: DiagView) -> Seq<TextEditView> {
    match d.code {
        DiagCode::PossibleAssignment => seq![TextEditView { range: d.range, new_text: "=="@ }],
        DiagCode::UnknownIo => seq![TextEditView { range: d.range, new_text: "io.print"@ }],
        _ => Seq::empty(),
    }
}

/// Fix-all edits for the first `n` diagnostics.
pub open spec fn fix_all_edits_upto(ds: Seq<DiagView>, n: int) -> Seq<TextEditView>
    decreases n
        when 0 <= n <= ds.len()
{
    if n <= 0 {
        Seq::empty()
    } else {
        fix_all_edits_upto(ds, n - 1) + fix_all_edit_for(ds[n - 1])
    }
}

/// Fix-all edits for all diagnostics, in input order.
pub open spec fn fix_all_edits(ds: Seq<DiagView>) -> Seq<TextEditView> {
    fix_all_edits_upto(ds, ds.len() as int)
}

/// The combined edit set of a fix-all request: one edit per
/// possible-assignment or unknown-io diagnostic, and no result at all
/// when there is no such diagnostic.
pub open spec fn spec_fix_all(uri: Seq<char>, ds: Seq<DiagView>) -> Option<WorkspaceEditView> {
    if ds.len() == 0 {
        None
    } else {
        let es = fix_all_edits(ds);
        if es.len() == 0 {
            None
        } else {
            Some(
                WorkspaceEditView { changes: seq![DocumentEditView { uri: uri, edits: es }] },
            )
        }
    }
}

/// Applies every unambiguous, single-choice fix (possible-assignment and
/// unknown-io) as one combined workspace edit; `None` when no such
/// diagnostic exists. The text argument is not consulted: the fixes are
/// derived from the diagnostics alone.
pub fn fix_all_errors(uri: &str, _text: &str, diagnostics: &Vec<Diagnostic>) -> (r: Option<
    WorkspaceEdit,
>)
    ensures
        match r {
            Some(w) => spec_fix_all(uri@, dviews(diagnostics@)) == Some(w@),
            None => spec_fix_all(uri@, dviews(diagnostics@)) is None,
        },
{
    let ghost dv = dviews(diagnostics@);
    if diagnostics.len() == 0 {
        return None;
    }
    let mut edits: Vec<TextEdit> = Vec::new();
    let mut i: usize = 0;
    while i < diagnostics.len()
        invariant
            0 <= i <= diagnostics@.len(),
            dv == dviews(diagnostics@),
            crate::diag::teviews(edits@) =~= fix_all_edits_upto(dv, i as int),
        decreases diagnostics@.len() - i,
    {
        let d = &diagnostics[i];
        proof {
            assert(dv[i as int] == diagnostics@[i as int]@);
        }
        match d.code {
            DiagCode::PossibleAssignment => {
                let e = TextEdit { range: d.range, new_text: String::from_str("==") };
                proof {
                    crate::diag::lemma_teviews_push(edits@, e);
                }
                edits.push(e);
            },
            DiagCode::UnknownIo => {
                let e = TextEdit { range: d.range, new_text: String::from_str("io.print") };
                proof {
                    crate::diag::lemma_teviews_push(edits@, e);
                }
                edits.push(e);
            },
            _ => {},
        }
        proof {
            assert(fix_all_edits_upto(dv, i + 1 as int) == fix_all_edits_upto(dv, i as int)
                + fix_all_edit_for(dv[i as int]));
            assert(crate::diag::teviews(edits@) =~= fix_all_edits_upto(dv, i + 1 as int));
        }
        i += 1;
    }
    if edits.len() == 0 {
        proof {
            assert(crate::diag::teviews(edits@).len() == 0);
        }
        return None;
    }
    proof {
        assert(crate::diag::teviews(edits@).len() == edits@.len());
    }
    let doc_edit = DocumentEdit { uri: String::from_str(uri), edits };
    let mut changes: Vec<DocumentEdit> = Vec::new();
    changes.push(doc_edit);
    let w = WorkspaceEdit { changes };
    proof {
        assert(w@.changes =~= seq![DocumentEditView { uri: uri@, edits: fix_all_edits(dv) }]);
        assert(w@ =~~= spec_fix_all(uri@, dv).unwrap());
    }
    Some(w)
}

} // verus!
