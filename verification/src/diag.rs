//! The diagnostic data model: positions, ranges, severities, stable
//! diagnostic codes, and the `Diagnostic` record itself, together with the
//! ghost views that the analysis contracts are stated over.

use vstd::prelude::*;

verus! {

/// A zero-based line/character position in a document.
#[derive(Clone, Copy, Debug, PartialEq, Eq, Structural)]
pub struct Position {
    pub line: usize,
    pub character: usize,
}

/// Ghost counterpart of `Position` over unbounded integers.
#[verifier::ext_equal]
pub struct PosView {
    pub line: int,
    pub character: int,
}

impl View for Position {
    type V = PosView;

    open spec fn view(&self) -> PosView {
        PosView { line: self.line as int, character: self.character as int }
    }
}

/// A half-open region of a document between two positions.
#[derive(Clone, Copy, Debug, PartialEq, Eq, Structural)]
pub struct Range {
    pub start: Position,
    pub end: Position,
}

/// Ghost counterpart of `Range`.
#[verifier::ext_equal]
pub struct RangeView {
    pub start: PosView,
    pub end: PosView,
}

impl View for Range {
    type V = RangeView;

    open spec fn view(&self) -> RangeView {
        RangeView { start: self.start@, end: self.end@ }
    }
}

/// Ghost shorthand for a range given as four coordinates.
pub open spec fn range_v(sl: int, sc: int, el: int, ec: int) -> RangeView {
    RangeView {
        start: PosView { line: sl, character: sc },
        end: PosView { line: el, character: ec },
    }
}

/// Builds a range from four coordinates.
pub fn mk_range(sl: usize, sc: usize, el: usize, ec: usize) -> (r: Range)
    ensures
        r@ == range_v(sl as int, sc as int, el as int, ec as int),
{
    Range {
        start: Position { line: sl, character: sc },
        end: Position { line: el, character: ec },
    }
}

#[derive(Clone, Copy, Debug, PartialEq, Eq, Structural)]
pub enum Severity {
    Error,
    Warning,
    Information,
}

/// Extra classification a client may render specially.
#[derive(Clone, Copy, Debug, PartialEq, Eq, Structural)]
pub enum DiagTag {
    Unnecessary,
    Deprecated,
}

/// Stable identity of each analysis rule. Quick fixes key off this, never
/// off the human-readable message.
#[derive(Clone, Copy, Debug, PartialEq, Eq, Structural)]
pub enum DiagCode {
    MismatchedParens,
    MismatchedBraces,
    MissingBody,
    MissingAssignment,
    UndefinedFunction,
    PossibleAssignment,
    UnknownIo,
    SinRadians,
    CosRadians,
    LineTooLong,
    NestedIf,
    OddIndentation,
    PrintInLoop,
    ArrayConcat,
    MissingReturn,
    UnusedVariable,
}

/// One reported issue. Immutable once created; a document's list is
/// replaced wholesale on recomputation.
#[derive(Clone, Debug, PartialEq)]
pub struct Diagnostic {
    pub range: Range,
    pub severity: Severity,
    pub code: DiagCode,
    pub message: String,
    pub tags: Vec<DiagTag>,
}

/// Ghost counterpart of `Diagnostic`.
#[verifier::ext_equal]
pub struct DiagView {
    pub range: RangeView,
    pub severity: Severity,
    pub code: DiagCode,
    pub message: Seq<char>,
    pub tags: Seq<DiagTag>,
}

impl View for Diagnostic {
    type V = DiagView;

    open spec fn view(&self) -> DiagView {
        DiagView {
            range: self.range@,
            severity: self.severity,
            code: self.code,
            message: self.message@,
            tags: self.tags@,
        }
    }
}

/// The views of a sequence of diagnostics.
pub open spec fn dviews(s: Seq<Diagnostic>) -> Seq<DiagView> {
    s.map_values(|d: Diagnostic| d@)
}

pub proof fn lemma_dviews_push(s: Seq<Diagnostic>, d: Diagnostic)
    ensures
        dviews(s.push(d)) =~= dviews(s).push(d@),
{
}

pub proof fn lemma_dviews_add(a: Seq<Diagnostic>, b: Seq<Diagnostic>)
    ensures
        dviews(a + b) =~= dviews(a) + dviews(b),
{
}

/// A replacement of one region of a document's text, in coordinates of
/// the text the edit was computed against.
#[derive(Clone, Debug, PartialEq)]
pub struct TextEdit {
    pub range: Range,
    pub new_text: String,
}

/// Ghost counterpart of `TextEdit`.
#[verifier::ext_equal]
pub struct TextEditView {
    pub range: RangeView,
    pub new_text: Seq<char>,
}

impl View for TextEdit {
    type V = TextEditView;

    open spec fn view(&self) -> TextEditView {
        TextEditView { range: self.range@, new_text: self.new_text@ }
    }
}

/// The views of a sequence of text edits.
pub open spec fn teviews(s: Seq<TextEdit>) -> Seq<TextEditView> {
    s.map_values(|e: TextEdit| e@)
}

pub proof fn lemma_teviews_push(s: Seq<TextEdit>, e: TextEdit)
    ensures
        teviews(s.push(e)) =~= teviews(s).push(e@),
{
}

pub proof fn lemma_teviews_add(a: Seq<TextEdit>, b: Seq<TextEdit>)
    ensures
        teviews(a + b) =~= teviews(a) + teviews(b),
{
}

/// The protocol-level string code of a rule, for the rules that publish one.
pub open spec fn spec_wire_code(c: DiagCode) -> Option<Seq<char>> {
    match c {
        DiagCode::LineTooLong => Some("line-too-long"@),
        DiagCode::NestedIf => Some("nested-if"@),
        DiagCode::OddIndentation => Some("indentation"@),
        _ => None,
    }
}

/// String code published with a diagnostic, where the rule has one.
pub fn wire_code(c: DiagCode) -> (r: Option<String>)
    ensures
        match r {
            Some(s) => spec_wire_code(c) == Some(s@),
            None => spec_wire_code(c) is None,
        },
{
    match c {
        DiagCode::LineTooLong => Some(String::from_str("line-too-long")),
        DiagCode::NestedIf => Some(String::from_str("nested-if")),
        DiagCode::OddIndentation => Some(String::from_str("indentation")),
        _ => None,
    }
}

/// A verified copy: the duplicate has the same view as the original.
pub fn dup_diag(d: &Diagnostic) -> (r: Diagnostic)
    ensures
        r@ == d@,
{
    let mut tags: Vec<DiagTag> = Vec::new();
    let mut i: usize = 0;
    while i < d.tags.len()
        invariant
            0 <= i <= d.tags@.len(),
            tags@ == d.tags@.take(i as int),
        decreases d.tags@.len() - i,
    {
        tags.push(d.tags[i]);
        proof {
            assert(d.tags@.take(i + 1 as int) =~= d.tags@.take(i as int).push(d.tags@[i as int]));
        }
        i += 1;
    }
    proof {
        assert(d.tags@.take(i as int) =~= d.tags@);
    }
    Diagnostic {
        range: d.range,
        severity: d.severity,
        code: d.code,
        message: d.message.clone(),
        tags,
    }
}

/// A verified copy of a diagnostic list, element for element.
pub fn dup_diags(v: &Vec<Diagnostic>) -> (r: Vec<Diagnostic>)
    ensures
        dviews(r@) == dviews(v@),
{
    let mut r: Vec<Diagnostic> = Vec::new();
    let mut i: usize = 0;
    while i < v.len()
        invariant
            0 <= i <= v@.len(),
            dviews(r@) =~= dviews(v@.take(i as int)),
        decreases v@.len() - i,
    {
        let d = dup_diag(&v[i]);
        r.push(d);
        proof {
            assert(v@.take(i + 1 as int) =~= v@.take(i as int).push(v@[i as int]));
            lemma_dviews_push(v@.take(i as int), v@[i as int]);
            assert(dviews(r@) =~= dviews(v@.take(i as int)).push(v@[i as int]@));
        }
        i += 1;
    }
    proof {
        assert(v@.take(i as int) =~= v@);
    }
    r
}

} // verus!
