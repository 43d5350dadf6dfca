//! The refactor engine: rename-symbol and extract-function
//! transformations producing text edits, and document-symbol
//! enumeration. Stateless over the current text of each registered
//! document; the error taxonomy is explicit and every failure is a
//! returned value.

use vstd::prelude::*;

use vstd::hash_map::StringHashMap;

use crate::diag::{
    lemma_teviews_push, mk_range, range_v, teviews, PosView, Position, Range, RangeView, TextEdit,
    TextEditView,
};
use crate::text::{
    is_match_at, is_word_char, line_views, match_chars_at, spec_lines, split_lines, word_char,
    word_run_end, word_run_start,
};

verus! {

/// Failure values of the refactor engine; all local and recoverable.
#[derive(Clone, Copy, Debug, PartialEq, Eq, Structural)]
pub enum RefactorError {
    NotFound,
    InvalidPosition,
    InvalidRange,
    NoSymbolAtPosition,
    NoOccurrencesFound,
}

/// The word under a position: the maximal run of identifier characters
/// around `col` (clamped to the line's end).
pub open spec fn spec_word_at(line: Seq<char>, col: int) -> Seq<char> {
    let c = if col <= line.len() {
        col
    } else {
        line.len() as int
    };
    line.subrange(word_run_start(line, c), word_run_end(line, c))
}

/// Copy of the word under column `col` of the given line.
pub fn word_at_in(line: &[char], col: usize) -> (r: Vec<char>)
    ensures
        r@ == spec_word_at(line@, col as int),
{
    let n = line.len();
    let c = if col <= n {
        col
    } else {
        n
    };
    let mut rs: usize = c;
    while rs > 0 && word_char(line[rs - 1])
        invariant
            0 <= rs <= c <= n,
            n == line@.len(),
            word_run_start(line@, c as int) == word_run_start(line@, rs as int),
        decreases rs,
    {
        rs -= 1;
    }
    proof {
        assert(word_run_start(line@, rs as int) == rs as int);
    }
    let mut e: usize = c;
    while e < n && word_char(line[e])
        invariant
            c <= e <= n,
            n == line@.len(),
            word_run_end(line@, c as int) == word_run_end(line@, e as int),
        decreases n - e,
    {
        e += 1;
    }
    proof {
        assert(word_run_end(line@, e as int) == e as int);
        crate::text::lemma_word_run_start(line@, c as int);
        crate::text::lemma_word_run_end(line@, c as int);
    }
    let sub = vstd::slice::slice_subrange(line, rs, e);
    vstd::slice::slice_to_vec(sub)
}

/// A resolved word consists of identifier characters only, so the
/// edit-disjointness law applies to every word a rename resolves.
pub proof fn lemma_word_at_chars(line: Seq<char>, col: int)
    requires
        0 <= col,
    ensures
        forall|k: int|
            0 <= k < spec_word_at(line, col).len() ==> is_word_char(
                #[trigger] spec_word_at(line, col)[k],
            ),
{
    let c = if col <= line.len() {
        col
    } else {
        line.len() as int
    };
    crate::text::lemma_word_run_start(line, c);
    crate::text::lemma_word_run_end(line, c);
}

/// A whole-word occurrence of `w` at position `i` of the line: the exact
/// characters of `w`, not adjacent to further identifier characters.
pub open spec fn is_word_occ(line: Seq<char>, w: Seq<char>, i: int) -> bool {
    &&& is_match_at(line, w, i)
    &&& (i == 0 || !is_word_char(line[i - 1]))
    &&& (i + w.len() == line.len() || !is_word_char(line[i + w.len()]))
}

/// The edit that replaces one occurrence on line `ln` at `[i, end)`.
pub open spec fn rename_edit(ln: int, i: int, end: int, new: Seq<char>) -> TextEditView {
    TextEditView { range: range_v(ln, i, ln, end), new_text: new }
}

/// Rename edits for occurrences of `w` starting before position `j`.
pub open spec fn rename_line_upto(
    line: Seq<char>,
    ln: int,
    w: Seq<char>,
    new: Seq<char>,
    j: int,
) -> Seq<TextEditView>
    decreases j
        when 0 <= j <= line.len()
{
    if j <= 0 {
        Seq::empty()
    } else {
        rename_line_upto(line, ln, w, new, j - 1) + (if is_word_occ(line, w, j - 1) {
            seq![rename_edit(ln, j - 1, j - 1 + w.len(), new)]
        } else {
            Seq::empty()
        })
    }
}

/// Rename edits for one line, left to right.
pub open spec fn spec_rename_line(line: Seq<char>, ln: int, w: Seq<char>, new: Seq<char>) -> Seq<
    TextEditView,
> {
    rename_line_upto(line, ln, w, new, line.len() as int)
}

fn rename_line(line: &[char], ln: usize, w: &[char], new_name: &str, out: &mut Vec<TextEdit>)
    ensures
        teviews(final(out)@) == teviews(old(out)@) + spec_rename_line(
            line@,
            ln as int,
            w@,
            new_name@,
        ),
{
    let ghost pre = out@;
    let n = line.len();
    let wl = w.len();
    let mut j: usize = 0;
    while j < n
        invariant
            0 <= j <= n,
            n == line@.len(),
            wl == w@.len(),
            teviews(out@) =~= teviews(pre) + rename_line_upto(
                line@,
                ln as int,
                w@,
                new_name@,
                j as int,
            ),
        decreases n - j,
    {
        if match_chars_at(line, w, j) {
            let e = j + wl;
            let front_ok = j == 0 || !word_char(line[j - 1]);
            let back_ok = e == n || !word_char(line[e]);
            if front_ok && back_ok {
                let d = TextEdit {
                    range: mk_range(ln, j, ln, e),
                    new_text: String::from_str(new_name),
                };
                proof {
                    lemma_teviews_push(out@, d);
                }
                out.push(d);
            }
        }
        proof {
            assert(rename_line_upto(line@, ln as int, w@, new_name@, j + 1 as int)
                == rename_line_upto(line@, ln as int, w@, new_name@, j as int) + (if is_word_occ(
                line@,
                w@,
                j as int,
            ) {
                seq![rename_edit(ln as int, j as int, j + w@.len(), new_name@)]
            } else {
                Seq::<TextEditView>::empty()
            }));
            assert(teviews(out@) =~= teviews(pre) + rename_line_upto(
                line@,
                ln as int,
                w@,
                new_name@,
                j + 1 as int,
            ));
        }
        j += 1;
    }
}

/// Rename edits over the first `n` lines.
pub open spec fn rename_edits_upto(
    ls: Seq<Seq<char>>,
    w: Seq<char>,
    new: Seq<char>,
    n: int,
) -> Seq<TextEditView>
    decreases n
        when 0 <= n <= ls.len()
{
    if n <= 0 {
        Seq::empty()
    } else {
        rename_edits_upto(ls, w, new, n - 1) + spec_rename_line(ls[n - 1], n - 1, w, new)
    }
}

/// One edit per whole-word occurrence of `w` anywhere in the document.
pub open spec fn rename_edits(ls: Seq<Seq<char>>, w: Seq<char>, new: Seq<char>) -> Seq<
    TextEditView,
> {
    rename_edits_upto(ls, w, new, ls.len() as int)
}

/// The full outcome of a rename: the word is resolved at the position,
/// and every whole-word occurrence is replaced; each failure is a
/// distinct error value.
pub open spec fn spec_rename(ls: Seq<Seq<char>>, pos: PosView, new: Seq<char>) -> Result<
    Seq<TextEditView>,
    RefactorError,
> {
    if !(0 <= pos.line < ls.len()) {
        Err(RefactorError::NotFound)
    } else {
        let w = spec_word_at(ls[pos.line], pos.character);
        if w.len() == 0 {
            Err(RefactorError::NoSymbolAtPosition)
        } else {
            let es = rename_edits(ls, w, new);
            if es.len() == 0 {
                Err(RefactorError::NoOccurrencesFound)
            } else {
                Ok(es)
            }
        }
    }
}

/// Renaming at a blank line resolves an empty word and fails with
/// `NoSymbolAtPosition`, whatever the column and replacement.
pub proof fn lemma_rename_blank_line(ls: Seq<Seq<char>>, pos: PosView, new: Seq<char>)
    requires
        0 <= pos.line < ls.len(),
        0 <= pos.character,
        ls[pos.line].len() == 0,
    ensures
        spec_rename(ls, pos, new) == Err::<Seq<TextEditView>, RefactorError>(
            RefactorError::NoSymbolAtPosition,
        ),
{
    let line = ls[pos.line];
    assert(spec_word_at(line, pos.character).len() == 0);
}

/// Renaming where the resolved word is empty fails with
/// `NoSymbolAtPosition` and produces no edits.
pub proof fn lemma_rename_no_symbol(ls: Seq<Seq<char>>, pos: PosView, new: Seq<char>)
    requires
        0 <= pos.line < ls.len(),
        spec_word_at(ls[pos.line], pos.character).len() == 0,
    ensures
        spec_rename(ls, pos, new) == Err::<Seq<TextEditView>, RefactorError>(
            RefactorError::NoSymbolAtPosition,
        ),
{
}

#[derive(Clone, Copy, Debug, PartialEq, Eq, Structural)]
pub enum SymbolKind {
    Function,
    Variable,
}

/// A declaration found in a document; derived from the text on each
/// request, never stored.
#[derive(Clone, Debug, PartialEq)]
pub struct Symbol {
    pub name: String,
    pub kind: SymbolKind,
    pub position: Position,
}

/// Ghost counterpart of `Symbol`.
#[verifier::ext_equal]
pub struct SymbolView {
    pub name: Seq<char>,
    pub kind: SymbolKind,
    pub position: PosView,
}

impl View for Symbol {
    type V = SymbolView;

    open spec fn view(&self) -> SymbolView {
        SymbolView { name: self.name@, kind: self.kind, position: self.position@ }
    }
}

/// The views of a sequence of symbols.
pub open spec fn sviews(s: Seq<Symbol>) -> Seq<SymbolView> {
    s.map_values(|x: Symbol| x@)
}

pub proof fn lemma_sviews_push(s: Seq<Symbol>, x: Symbol)
    ensures
        sviews(s.push(x)) =~= sviews(s).push(x@),
{
}

/// The declared name of a variable declaration: the text after the first
/// `turbo ` on the line, up to the first `=` or `;` after it, trimmed.
pub open spec fn turbo_name(line: Seq<char>) -> Seq<char> {
    let rest = line.skip(crate::text::find_sub(line, "turbo "@) + "turbo "@.len());
    let e1 = crate::text::find_char(rest, '=');
    let e2 = crate::text::find_char(rest, ';');
    let e = if e1 <= e2 {
        e1
    } else {
        e2
    };
    crate::text::trim_spaces(rest.take(e))
}

/// Copy of the declared variable name of a line containing `turbo `.
fn turbo_name_in(line: &[char]) -> (r: Vec<char>)
    requires
        crate::text::contains_sub(line@, "turbo "@),
    ensures
        r@ == turbo_name(line@),
{
    let n = line.len();
    let kw_len = "turbo ".unicode_len();
    let p = crate::text::find_str_in(line, "turbo ");
    proof {
        reveal_strlit("turbo ");
        crate::text::lemma_find_sub(line@, "turbo "@);
    }
    let rest = vstd::slice::slice_subrange(line, p + kw_len, n);
    proof {
        assert(rest@ =~= line@.skip(crate::text::find_sub(line@, "turbo "@) + "turbo "@.len()));
        crate::text::lemma_find_char(rest@, '=');
        crate::text::lemma_find_char(rest@, ';');
    }
    let e1 = crate::text::find_char_in(rest, '=');
    let e2 = crate::text::find_char_in(rest, ';');
    let e = if e1 <= e2 {
        e1
    } else {
        e2
    };
    let upto = vstd::slice::slice_subrange(rest, 0, e);
    proof {
        assert(upto@ =~= rest@.take(e as int));
    }
    crate::text::trim_in(upto)
}

/// Whether a line declares a variable and assigns to it: it holds
/// `turbo ` anywhere (indented declarations count) and an `=`.
pub open spec fn is_var_decl(line: Seq<char>) -> bool {
    crate::text::contains_sub(line, "turbo "@) && crate::text::find_char(line, '=') < line.len()
}

/// The symbols declared on one line, each positioned at its name, just
/// after the declaration keyword.
pub open spec fn spec_symbol_line(line: Seq<char>, ln: int) -> Seq<SymbolView> {
    (if crate::text::has_prefix(line, "blast "@) {
        seq![
            SymbolView {
                name: crate::analysis::blast_name(line),
                kind: SymbolKind::Function,
                position: PosView { line: ln, character: "blast "@.len() as int },
            },
        ]
    } else {
        Seq::empty()
    }) + (if is_var_decl(line) {
        seq![
            SymbolView {
                name: turbo_name(line),
                kind: SymbolKind::Variable,
                position: PosView {
                    line: ln,
                    character: crate::text::find_sub(line, "turbo "@) + "turbo "@.len(),
                },
            },
        ]
    } else {
        Seq::empty()
    })
}

/// The symbols declared among the first `n` lines.
pub open spec fn spec_symbols_upto(ls: Seq<Seq<char>>, n: int) -> Seq<SymbolView>
    decreases n
        when 0 <= n <= ls.len()
{
    if n <= 0 {
        Seq::empty()
    } else {
        spec_symbols_upto(ls, n - 1) + spec_symbol_line(ls[n - 1], n - 1)
    }
}

/// All symbols of a document: function declarations and assigned
/// variable declarations, in line order.
pub open spec fn spec_symbols(ls: Seq<Seq<char>>) -> Seq<SymbolView> {
    spec_symbols_upto(ls, ls.len() as int)
}

/// The parameter names inferred from the first `j` selected lines: the
/// non-empty names of variable declarations with assignments.
pub open spec fn extract_params_upto(sel: Seq<Seq<char>>, j: int) -> Seq<Seq<char>>
    decreases j
        when 0 <= j <= sel.len()
{
    if j <= 0 {
        Seq::empty()
    } else {
        extract_params_upto(sel, j - 1) + (if is_var_decl(sel[j - 1]) && turbo_name(
            sel[j - 1],
        ).len() > 0 {
            seq![turbo_name(sel[j - 1])]
        } else {
            Seq::empty()
        })
    }
}

/// The parameter names inferred from the selected lines.
pub open spec fn extract_params(sel: Seq<Seq<char>>) -> Seq<Seq<char>> {
    extract_params_upto(sel, sel.len() as int)
}

/// The line where the extracted function is inserted: the nearest
/// function-declaration line before the selection, or the document start.
pub open spec fn insert_line_at(ls: Seq<Seq<char>>, start: int) -> int
    decreases start
        when 0 <= start <= ls.len()
{
    if start <= 0 {
        0
    } else if crate::text::has_prefix(ls[start - 1], "blast "@) {
        start - 1
    } else {
        insert_line_at(ls, start - 1)
    }
}

/// The text of the extracted function definition.
pub open spec fn extract_fun_text(name: Seq<char>, params: Seq<Seq<char>>, body: Seq<char>) -> Seq<
    char,
> {
    "blast "@ + name + "("@ + crate::text::join_sep(params, ", "@) + ") {\n"@ + body + "\n}"@
}

/// The call that replaces the selection: the argument list takes the
/// last whitespace-separated token of each parameter specification.
pub open spec fn extract_call_text(name: Seq<char>, params: Seq<Seq<char>>) -> Seq<char> {
    name + "("@ + crate::text::join_sep(
        params.map_values(|p: Seq<char>| crate::text::last_token(p)),
        ", "@,
    ) + ");"@
}

/// The full outcome of extract-function: both endpoints must lie within
/// the document's lines; the selected lines become the new function's
/// body verbatim, and the selection is replaced by a call to it.
pub open spec fn spec_extract(ls: Seq<Seq<char>>, range: RangeView, name: Seq<char>) -> Result<
    (Seq<TextEditView>, Seq<char>),
    RefactorError,
> {
    if !(0 <= range.start.line <= range.end.line < ls.len()) {
        Err(RefactorError::InvalidRange)
    } else {
        let sel = ls.subrange(range.start.line, range.end.line + 1);
        let body = crate::text::join_sep(sel, "\n"@);
        let params = extract_params(sel);
        let ft = extract_fun_text(name, params, body);
        let il = insert_line_at(ls, range.start.line);
        Ok(
            (
                seq![
                    TextEditView { range: range_v(il, 0, il, 0), new_text: ft + "\n"@ },
                    TextEditView {
                        range: range_v(
                            range.start.line,
                            0,
                            range.end.line,
                            ls[range.end.line].len() as int,
                        ),
                        new_text: extract_call_text(name, params),
                    },
                ],
                ft,
            ),
        )
    }
}

/// A selection whose end line is past the document's last line is
/// rejected with `InvalidRange`, and nothing is derived from the text.
pub proof fn lemma_extract_invalid_range(ls: Seq<Seq<char>>, range: RangeView, name: Seq<char>)
    requires
        range.end.line >= ls.len() || range.start.line > range.end.line || range.start.line < 0,
    ensures
        spec_extract(ls, range, name) == Err::<(Seq<TextEditView>, Seq<char>), RefactorError>(
            RefactorError::InvalidRange,
        ),
{
}

fn find_insert_line(lines: &Vec<Vec<char>>, start: usize) -> (il: usize)
    requires
        start <= lines@.len(),
    ensures
        il as int == insert_line_at(line_views(lines@), start as int),
    decreases start,
{
    let ghost lv = line_views(lines@);
    if start == 0 {
        0
    } else {
        proof {
            assert(lv[start - 1 as int] == lines@[start - 1 as int]@);
        }
        if crate::text::starts_with_str(lines[start - 1].as_slice(), "blast ") {
            start - 1
        } else {
            find_insert_line(lines, start - 1)
        }
    }
}

/// `e1` ends at or before the start of `e2`, so the two edits do not
/// overlap and can be applied as one batch.
pub open spec fn edit_precedes(e1: TextEditView, e2: TextEditView) -> bool {
    ||| e1.range.end.line < e2.range.start.line
    ||| (e1.range.end.line == e2.range.start.line && e1.range.end.character
        <= e2.range.start.character)
}

/// Two whole-word occurrences of a word made of identifier characters
/// cannot overlap: the earlier one ends at or before the later one starts.
pub proof fn lemma_word_occ_separated(line: Seq<char>, w: Seq<char>, p1: int, p2: int)
    requires
        w.len() >= 1,
        forall|k: int| 0 <= k < w.len() ==> is_word_char(#[trigger] w[k]),
        is_word_occ(line, w, p1),
        is_word_occ(line, w, p2),
        p1 < p2,
    ensures
        p1 + w.len() <= p2,
{
    if p2 < p1 + w.len() {
        let idx = p1 + w.len();
        assert(line.subrange(p2, p2 + w.len())[idx - p2] == line[idx]);
        assert(line[idx] == w[idx - p2]);
        assert(is_word_char(line[idx]));
    }
}

/// Shape of the edits of one line: each replaces one whole-word
/// occurrence, spans exactly the word, and they come in strictly
/// increasing order of start column.
pub proof fn lemma_rename_line_shape(
    line: Seq<char>,
    ln: int,
    w: Seq<char>,
    new: Seq<char>,
    j: int,
)
    requires
        0 <= j <= line.len(),
    ensures
        forall|k: int|
            0 <= k < rename_line_upto(line, ln, w, new, j).len() ==> {
                let e = #[trigger] rename_line_upto(line, ln, w, new, j)[k];
                &&& e.range.start.line == ln
                &&& e.range.end.line == ln
                &&& e.range.end.character == e.range.start.character + w.len()
                &&& is_word_occ(line, w, e.range.start.character)
                &&& e.range.start.character < j
            },
        forall|k1: int, k2: int|
            0 <= k1 < k2 < rename_line_upto(line, ln, w, new, j).len() ==> #[trigger] rename_line_upto(
                line,
                ln,
                w,
                new,
                j,
            )[k1].range.start.character < #[trigger] rename_line_upto(
                line,
                ln,
                w,
                new,
                j,
            )[k2].range.start.character,
    decreases j,
{
    if j > 0 {
        lemma_rename_line_shape(line, ln, w, new, j - 1);
        let prev = rename_line_upto(line, ln, w, new, j - 1);
        let cur = rename_line_upto(line, ln, w, new, j);
        assert forall|k: int| 0 <= k < cur.len() implies {
            let e = #[trigger] cur[k];
            &&& e.range.start.line == ln
            &&& e.range.end.line == ln
            &&& e.range.end.character == e.range.start.character + w.len()
            &&& is_word_occ(line, w, e.range.start.character)
            &&& e.range.start.character < j
        } by {
            if k < prev.len() {
                assert(cur[k] == prev[k]);
            } else {
                assert(is_word_occ(line, w, j - 1));
                assert(cur[k] == rename_edit(ln, j - 1, j - 1 + w.len(), new));
            }
        }
        assert forall|k1: int, k2: int| 0 <= k1 < k2 < cur.len() implies #[trigger] cur[k1].range.start.character
            < #[trigger] cur[k2].range.start.character by {
            if k2 < prev.len() {
                assert(cur[k1] == prev[k1]);
                assert(cur[k2] == prev[k2]);
            } else {
                assert(cur[k1] == prev[k1]);
                assert(cur[k2] == rename_edit(ln, j - 1, j - 1 + w.len(), new));
                assert(prev[k1].range.start.character < j - 1);
            }
        }
    }
}

/// Shape of the edits of a whole document: single-line edits of the
/// word's width, ordered by line and then strictly by start column.
pub proof fn lemma_rename_edits_shape(ls: Seq<Seq<char>>, w: Seq<char>, new: Seq<char>, n: int)
    requires
        0 <= n <= ls.len(),
    ensures
        forall|k: int|
            0 <= k < rename_edits_upto(ls, w, new, n).len() ==> {
                let e = #[trigger] rename_edits_upto(ls, w, new, n)[k];
                &&& 0 <= e.range.start.line < n
                &&& e.range.end.line == e.range.start.line
                &&& e.range.end.character == e.range.start.character + w.len()
                &&& is_word_occ(ls[e.range.start.line], w, e.range.start.character)
            },
        forall|k1: int, k2: int|
            0 <= k1 < k2 < rename_edits_upto(ls, w, new, n).len() ==> {
                let e1 = #[trigger] rename_edits_upto(ls, w, new, n)[k1];
                let e2 = #[trigger] rename_edits_upto(ls, w, new, n)[k2];
                ||| e1.range.start.line < e2.range.start.line
                ||| (e1.range.start.line == e2.range.start.line && e1.range.start.character
                    < e2.range.start.character)
            },
    decreases n,
{
    if n > 0 {
        lemma_rename_edits_shape(ls, w, new, n - 1);
        lemma_rename_line_shape(ls[n - 1], n - 1, w, new, ls[n - 1].len() as int);
        let prev = rename_edits_upto(ls, w, new, n - 1);
        let chunk = spec_rename_line(ls[n - 1], n - 1, w, new);
        let cur = rename_edits_upto(ls, w, new, n);
        assert forall|k: int| 0 <= k < cur.len() implies {
            let e = #[trigger] cur[k];
            &&& 0 <= e.range.start.line < n
            &&& e.range.end.line == e.range.start.line
            &&& e.range.end.character == e.range.start.character + w.len()
            &&& is_word_occ(ls[e.range.start.line], w, e.range.start.character)
        } by {
            if k < prev.len() {
                assert(cur[k] == prev[k]);
            } else {
                assert(cur[k] == chunk[k - prev.len()]);
            }
        }
        assert forall|k1: int, k2: int| 0 <= k1 < k2 < cur.len() implies {
            let e1 = #[trigger] cur[k1];
            let e2 = #[trigger] cur[k2];
            ||| e1.range.start.line < e2.range.start.line
            ||| (e1.range.start.line == e2.range.start.line && e1.range.start.character
                < e2.range.start.character)
        } by {
            if k2 < prev.len() {
                assert(cur[k1] == prev[k1]);
                assert(cur[k2] == prev[k2]);
            } else if k1 < prev.len() {
                assert(cur[k1] == prev[k1]);
                assert(cur[k2] == chunk[k2 - prev.len()]);
                assert(prev[k1].range.start.line < n - 1);
                assert(chunk[k2 - prev.len()].range.start.line == n - 1);
            } else {
                assert(cur[k1] == chunk[k1 - prev.len()]);
                assert(cur[k2] == chunk[k2 - prev.len()]);
            }
        }
    }
}

/// The rename edits never overlap: for a non-empty word made of
/// identifier characters, each edit ends at or before the start of the
/// next, so a workspace edit built from them applies as one batch.
pub proof fn lemma_rename_edits_disjoint(ls: Seq<Seq<char>>, w: Seq<char>, new: Seq<char>)
    requires
        w.len() >= 1,
        forall|k: int| 0 <= k < w.len() ==> is_word_char(#[trigger] w[k]),
    ensures
        forall|i: int, j: int|
            0 <= i < j < rename_edits(ls, w, new).len() ==> edit_precedes(
                #[trigger] rename_edits(ls, w, new)[i],
                #[trigger] rename_edits(ls, w, new)[j],
            ),
{
    let es = rename_edits(ls, w, new);
    lemma_rename_edits_shape(ls, w, new, ls.len() as int);
    assert forall|i: int, j: int| 0 <= i < j < es.len() implies edit_precedes(
        #[trigger] es[i],
        #[trigger] es[j],
    ) by {
        let e1 = es[i];
        let e2 = es[j];
        if e1.range.start.line == e2.range.start.line {
            lemma_word_occ_separated(
                ls[e1.range.start.line],
                w,
                e1.range.start.character,
                e2.range.start.character,
            );
        }
    }
}

pub struct RefactorEngine {
    documents: StringHashMap<String>,
}

impl RefactorEngine {
    /// The stored text of each document, by document id.
    pub closed spec fn docs_view(&self) -> Map<Seq<char>, Seq<char>> {
        Map::new(
            |k: Seq<char>| self.documents@.contains_key(k),
            |k: Seq<char>| self.documents@[k]@,
        )
    }

    pub fn new() -> (r: Self)
        ensures
            r.docs_view() == Map::<Seq<char>, Seq<char>>::empty(),
    {
        let r = RefactorEngine { documents: StringHashMap::new() };
        proof {
            assert(r.docs_view() =~= Map::<Seq<char>, Seq<char>>::empty());
        }
        r
    }

    /// Inserts or replaces the full text for `uri`.
    pub fn register_document(&mut self, uri: &str, text: &str)
        ensures
            final(self).docs_view() == old(self).docs_view().insert(uri@, text@),
    {
        self.documents.insert(String::from_str(uri), String::from_str(text));
        proof {
            assert(final(self).docs_view() =~= old(self).docs_view().insert(uri@, text@));
        }
    }

    /// Removes the text for `uri`; later requests for it report `NotFound`.
    pub fn unregister_document(&mut self, uri: &str)
        ensures
            final(self).docs_view() == old(self).docs_view().remove(uri@),
    {
        self.documents.remove(uri);
        proof {
            assert(final(self).docs_view() =~= old(self).docs_view().remove(uri@));
        }
    }

    /// Resolves the identifier under `position` and produces one edit per
    /// whole-word occurrence of it, document-wide, replacing it with
    /// `new_name`. Fails with `NotFound` for an unknown document or a
    /// position past the last line, `NoSymbolAtPosition` where the
    /// resolved word is empty, and `NoOccurrencesFound` where no
    /// boundary-matched occurrence exists.
    pub fn rename_symbol(&self, uri: &str, position: Position, new_name: &str) -> (r: Result<
        Vec<TextEdit>,
        RefactorError,
    >)
        ensures
            !self.docs_view().contains_key(uri@) ==> r == Err::<Vec<TextEdit>, RefactorError>(
                RefactorError::NotFound,
            ),
            self.docs_view().contains_key(uri@) ==> {
                let s = spec_rename(spec_lines(self.docs_view()[uri@]), position@, new_name@);
                match r {
                    Ok(es) => s == Ok::<Seq<TextEditView>, RefactorError>(teviews(es@)),
                    Err(e) => s == Err::<Seq<TextEditView>, RefactorError>(e),
                }
            },
    {
        let text_opt = self.documents.get(uri);
        let text = match text_opt {
            None => {
                return Err(RefactorError::NotFound);
            },
            Some(t) => t,
        };
        let lines = split_lines(text.as_str());
        let ghost lv = line_views(lines@);
        if position.line >= lines.len() {
            return Err(RefactorError::NotFound);
        }
        let w = word_at_in(lines[position.line].as_slice(), position.character);
        if w.len() == 0 {
            return Err(RefactorError::NoSymbolAtPosition);
        }
        let mut edits: Vec<TextEdit> = Vec::new();
        let mut i: usize = 0;
        while i < lines.len()
            invariant
                0 <= i <= lines@.len(),
                lv == line_views(lines@),
                teviews(edits@) =~= rename_edits_upto(lv, w@, new_name@, i as int),
            decreases lines@.len() - i,
        {
            rename_line(lines[i].as_slice(), i, w.as_slice(), new_name, &mut edits);
            proof {
                assert(lv[i as int] == lines@[i as int]@);
                assert(rename_edits_upto(lv, w@, new_name@, i + 1 as int) == rename_edits_upto(
                    lv,
                    w@,
                    new_name@,
                    i as int,
                ) + spec_rename_line(lv[i as int], i as int, w@, new_name@));
            }
            i += 1;
        }
        if edits.len() == 0 {
            proof {
                assert(teviews(edits@).len() == 0);
            }
            Err(RefactorError::NoOccurrencesFound)
        } else {
            proof {
                assert(teviews(edits@).len() == edits@.len());
            }
            Ok(edits)
        }
    }

    /// Enumerates the declarations of the document: one record per
    /// function-declaration line and per assigned variable declaration.
    pub fn get_all_symbols(&self, uri: &str) -> (r: Result<Vec<Symbol>, RefactorError>)
        ensures
            !self.docs_view().contains_key(uri@) ==> r == Err::<Vec<Symbol>, RefactorError>(
                RefactorError::NotFound,
            ),
            self.docs_view().contains_key(uri@) ==> (r matches Ok(ss) && sviews(ss@)
                == spec_symbols(spec_lines(self.docs_view()[uri@]))),
    {
        let text_opt = self.documents.get(uri);
        let text = match text_opt {
            None => {
                return Err(RefactorError::NotFound);
            },
            Some(t) => t,
        };
        let lines = split_lines(text.as_str());
        let ghost lv = line_views(lines@);
        let kw_len = "blast ".unicode_len();
        let kw_len_var = "turbo ".unicode_len();
        proof {
            reveal_strlit("blast ");
            reveal_strlit("turbo ");
        }
        let mut out: Vec<Symbol> = Vec::new();
        let mut i: usize = 0;
        while i < lines.len()
            invariant
                0 <= i <= lines@.len(),
                lv == line_views(lines@),
                kw_len == "blast "@.len(),
                kw_len_var == "turbo "@.len(),
                sviews(out@) =~= spec_symbols_upto(lv, i as int),
            decreases lines@.len() - i,
        {
            let line = lines[i].as_slice();
            proof {
                assert(lv[i as int] == lines@[i as int]@);
            }
            if crate::text::starts_with_str(line, "blast ") {
                let rest = vstd::slice::slice_subrange(line, kw_len, line.len());
                proof {
                    assert(rest@ =~= line@.skip("blast "@.len() as int));
                    crate::text::lemma_find_char(rest@, '(');
                }
                let k = crate::text::find_char_in(rest, '(');
                let upto = vstd::slice::slice_subrange(rest, 0, k);
                proof {
                    assert(upto@ =~= rest@.take(crate::text::find_char(rest@, '(')));
                }
                let name = crate::text::trim_in(upto);
                let s = Symbol {
                    name: crate::text::chars_to_string(name.as_slice()),
                    kind: SymbolKind::Function,
                    position: Position { line: i, character: kw_len },
                };
                proof {
                    lemma_sviews_push(out@, s);
                }
                out.push(s);
            }
            if crate::text::contains_str_in(line, "turbo ") && crate::text::contains_char_in(
                line,
                '=',
            ) {
                let _line_len = line.len();
                let p = crate::text::find_str_in(line, "turbo ");
                proof {
                    crate::text::lemma_find_sub(line@, "turbo "@);
                }
                let name = turbo_name_in(line);
                let s = Symbol {
                    name: crate::text::chars_to_string(name.as_slice()),
                    kind: SymbolKind::Variable,
                    position: Position { line: i, character: p + kw_len_var },
                };
                proof {
                    lemma_sviews_push(out@, s);
                }
                out.push(s);
            }
            proof {
                assert(spec_symbols_upto(lv, i + 1 as int) == spec_symbols_upto(lv, i as int)
                    + spec_symbol_line(lv[i as int], i as int));
                assert(sviews(out@) =~= spec_symbols_upto(lv, i + 1 as int));
            }
            i += 1;
        }
        Ok(out)
    }

    /// Extracts the selected lines into a new function: validates the
    /// selection against the document's line count, builds the function
    /// definition (body verbatim, parameters inferred from variable
    /// declarations in the selection), inserts it at the nearest
    /// preceding function declaration (or the document start), and
    /// replaces the selection with a call. Returns the edits and the
    /// inserted function text.
    pub fn extract_function(&self, uri: &str, range: Range, function_name: &str) -> (r: Result<
        (Vec<TextEdit>, String),
        RefactorError,
    >)
        ensures
            !self.docs_view().contains_key(uri@) ==> r == Err::<(Vec<TextEdit>, String), RefactorError>(
                RefactorError::NotFound,
            ),
            self.docs_view().contains_key(uri@) ==> {
                let s = spec_extract(spec_lines(self.docs_view()[uri@]), range@, function_name@);
                match r {
                    Ok(p) => s == Ok::<(Seq<TextEditView>, Seq<char>), RefactorError>(
                        (teviews(p.0@), p.1@),
                    ),
                    Err(e) => s == Err::<(Seq<TextEditView>, Seq<char>), RefactorError>(e),
                }
            },
    {
        let text_opt = self.documents.get(uri);
        let text = match text_opt {
            None => {
                return Err(RefactorError::NotFound);
            },
            Some(t) => t,
        };
        let lines = split_lines(text.as_str());
        let ghost lv = line_views(lines@);
        let start = range.start.line;
        let end = range.end.line;
        if start > end || end >= lines.len() {
            return Err(RefactorError::InvalidRange);
        }
        let sel = vstd::slice::slice_subrange(lines.as_slice(), start, end + 1);
        let ghost selv = lv.subrange(start as int, end + 1 as int);
        proof {
            assert(line_views(sel@) =~= selv);
        }
        let body = crate::text::join_chars(sel, "\n");
        let mut params: Vec<Vec<char>> = Vec::new();
        let mut j: usize = 0;
        while j < sel.len()
            invariant
                0 <= j <= sel@.len(),
                selv == line_views(sel@),
                selv.len() == sel@.len(),
                line_views(params@) =~= extract_params_upto(selv, j as int),
            decreases sel@.len() - j,
        {
            let line = sel[j].as_slice();
            proof {
                assert(selv[j as int] == sel@[j as int]@);
            }
            if crate::text::contains_str_in(line, "turbo ") && crate::text::contains_char_in(
                line,
                '=',
            ) {
                let name = turbo_name_in(line);
                if name.len() > 0 {
                    params.push(name);
                }
            }
            proof {
                assert(extract_params_upto(selv, j + 1 as int) == extract_params_upto(
                    selv,
                    j as int,
                ) + (if is_var_decl(selv[j as int]) && turbo_name(selv[j as int]).len() > 0 {
                    seq![turbo_name(selv[j as int])]
                } else {
                    Seq::<Seq<char>>::empty()
                }));
                assert(line_views(params@) =~= extract_params_upto(selv, j + 1 as int));
            }
            j += 1;
        }
        let param_list = crate::text::join_chars(params.as_slice(), ", ");
        let mut ft = String::from_str("blast ");
        ft.append(function_name);
        ft.append("(");
        ft.append(param_list.as_str());
        ft.append(") {\n");
        ft.append(body.as_str());
        ft.append("\n}");
        proof {
            assert(ft@ =~= extract_fun_text(
                function_name@,
                extract_params(selv),
                crate::text::join_sep(selv, "\n"@),
            ));
        }
        let il = find_insert_line(&lines, start);
        let mut args: Vec<Vec<char>> = Vec::new();
        let mut k: usize = 0;
        let ghost pv = line_views(params@);
        while k < params.len()
            invariant
                0 <= k <= params@.len(),
                pv == line_views(params@),
                line_views(args@) =~= pv.take(k as int).map_values(
                    |p: Seq<char>| crate::text::last_token(p),
                ),
            decreases params@.len() - k,
        {
            let a = crate::text::last_token_in(params[k].as_slice());
            args.push(a);
            proof {
                assert(pv[k as int] == params@[k as int]@);
                assert(pv.take(k + 1 as int) =~= pv.take(k as int).push(pv[k as int]));
                assert(pv.take(k + 1 as int).map_values(|p: Seq<char>| crate::text::last_token(p))
                    =~= pv.take(k as int).map_values(|p: Seq<char>| crate::text::last_token(p)).push(
                    crate::text::last_token(pv[k as int]),
                ));
                assert(line_views(args@) =~= pv.take(k + 1 as int).map_values(
                    |p: Seq<char>| crate::text::last_token(p),
                ));
            }
            k += 1;
        }
        proof {
            assert(pv.take(params@.len() as int) =~= pv);
        }
        let arg_list = crate::text::join_chars(args.as_slice(), ", ");
        let mut call = crate::text::chars_to_string(
            crate::text::str_to_chars(function_name).as_slice(),
        );
        call.append("(");
        call.append(arg_list.as_str());
        call.append(");");
        proof {
            assert(call@ =~= extract_call_text(function_name@, extract_params(selv)));
        }
        let mut insert_text = ft.clone();
        insert_text.append("\n");
        let e1 = TextEdit { range: mk_range(il, 0, il, 0), new_text: insert_text };
        let end_len = lines[end].len();
        let e2 = TextEdit { range: mk_range(start, 0, end, end_len), new_text: call };
        let mut edits: Vec<TextEdit> = Vec::new();
        edits.push(e1);
        edits.push(e2);
        proof {
            assert(teviews(edits@) =~= seq![e1@, e2@]);
            assert(e1@.new_text =~= extract_fun_text(
                function_name@,
                extract_params(selv),
                crate::text::join_sep(selv, "\n"@),
            ) + "\n"@);
        }
        Ok((edits, ft))
    }
}

} // verus!
