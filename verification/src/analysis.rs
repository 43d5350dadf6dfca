//! The diagnostic analyzer: five independent passes over a document's
//! lines, concatenated in a fixed order (syntax, semantic, type/usage,
//! style, performance). Each pass is a pure function of the text; the
//! spec functions here define the exact diagnostics produced.

use vstd::prelude::*;

use crate::diag::{
    dviews, lemma_dviews_add, lemma_dviews_push, mk_range, range_v, DiagCode, DiagTag, DiagView,
    Diagnostic, Severity,
};
use crate::text::{
    contains_char_in, contains_str_in, contains_sub, count_char, count_char_in, dec_str, find_char,
    find_char_in, find_str_in, find_sub, lemma_find_char, lemma_find_sub, line_views, spec_lines,
    split_lines, usize_to_string,
};

verus! {

/// Message for a line whose `(` and `)` counts differ.
pub open spec fn msg_mismatched_parens(o: nat, c: nat) -> Seq<char> {
    "Mismatched parentheses: "@ + dec_str(o) + " opening, "@ + dec_str(c) + " closing"@
}

/// Message for a line whose `{` and `}` counts differ.
pub open spec fn msg_mismatched_braces(o: nat, c: nat) -> Seq<char> {
    "Mismatched braces: "@ + dec_str(o) + " opening, "@ + dec_str(c) + " closing"@
}

fn mismatched_parens_msg(o: usize, c: usize) -> (m: String)
    ensures
        m@ == msg_mismatched_parens(o as nat, c as nat),
{
    let mut m = String::from_str("Mismatched parentheses: ");
    let os = usize_to_string(o);
    m.append(os.as_str());
    m.append(" opening, ");
    let cs = usize_to_string(c);
    m.append(cs.as_str());
    m.append(" closing");
    proof {
        assert(m@ =~= msg_mismatched_parens(o as nat, c as nat));
    }
    m
}

fn mismatched_braces_msg(o: usize, c: usize) -> (m: String)
    ensures
        m@ == msg_mismatched_braces(o as nat, c as nat),
{
    let mut m = String::from_str("Mismatched braces: ");
    let os = usize_to_string(o);
    m.append(os.as_str());
    m.append(" opening, ");
    let cs = usize_to_string(c);
    m.append(cs.as_str());
    m.append(" closing");
    proof {
        assert(m@ =~= msg_mismatched_braces(o as nat, c as nat));
    }
    m
}

/// Diagnostics of the syntax pass for one line: unbalanced parentheses or
/// braces, a function-declaration line without parameters or body, and a
/// variable-declaration line without an assignment.
pub open spec fn spec_syntax_line(line: Seq<char>, ln: int) -> Seq<DiagView> {
    let op = count_char(line, '(');
    let cp = count_char(line, ')');
    let ob = count_char(line, '{');
    let cb = count_char(line, '}');
    (if op != cp {
        seq![
            DiagView {
                range: range_v(ln, 0, ln, line.len() as int),
                severity: Severity::Error,
                code: DiagCode::MismatchedParens,
                message: msg_mismatched_parens(op, cp),
                tags: Seq::empty(),
            },
        ]
    } else {
        Seq::empty()
    }) + (if ob != cb {
        seq![
            DiagView {
                range: range_v(ln, 0, ln, line.len() as int),
                severity: Severity::Error,
                code: DiagCode::MismatchedBraces,
                message: msg_mismatched_braces(ob, cb),
                tags: Seq::empty(),
            },
        ]
    } else {
        Seq::empty()
    }) + (if contains_sub(line, "blast "@) && !(find_char(line, '(') < line.len()) && !(find_char(
        line,
        '{',
    ) < line.len()) {
        seq![
            DiagView {
                range: range_v(ln, find_sub(line, "blast "@), ln, line.len() as int),
                severity: Severity::Error,
                code: DiagCode::MissingBody,
                message: "Function definition missing parameters or body"@,
                tags: Seq::empty(),
            },
        ]
    } else {
        Seq::empty()
    }) + (if contains_sub(line, "turbo "@) && !(find_char(line, '=') < line.len()) {
        seq![
            DiagView {
                range: range_v(ln, find_sub(line, "turbo "@), ln, line.len() as int),
                severity: Severity::Error,
                code: DiagCode::MissingAssignment,
                message: "Variable declaration missing assignment"@,
                tags: Seq::empty(),
            },
        ]
    } else {
        Seq::empty()
    })
}

fn syntax_line(line: &[char], ln: usize, out: &mut Vec<Diagnostic>)
    ensures
        dviews(final(out)@) == dviews(old(out)@) + spec_syntax_line(line@, ln as int),
{
    let ghost pre = out@;
    let op = count_char_in(line, '(');
    let cp = count_char_in(line, ')');
    if op != cp {
        let d = Diagnostic {
            range: mk_range(ln, 0, ln, line.len()),
            severity: Severity::Error,
            code: DiagCode::MismatchedParens,
            message: mismatched_parens_msg(op, cp),
            tags: Vec::new(),
        };
        proof {
            lemma_dviews_push(out@, d);
        }
        out.push(d);
    }
    let ob = count_char_in(line, '{');
    let cb = count_char_in(line, '}');
    if ob != cb {
        let d = Diagnostic {
            range: mk_range(ln, 0, ln, line.len()),
            severity: Severity::Error,
            code: DiagCode::MismatchedBraces,
            message: mismatched_braces_msg(ob, cb),
            tags: Vec::new(),
        };
        proof {
            lemma_dviews_push(out@, d);
        }
        out.push(d);
    }
    if contains_str_in(line, "blast ") && !contains_char_in(line, '(') && !contains_char_in(
        line,
        '{',
    ) {
        let st = find_str_in(line, "blast ");
        let d = Diagnostic {
            range: mk_range(ln, st, ln, line.len()),
            severity: Severity::Error,
            code: DiagCode::MissingBody,
            message: String::from_str("Function definition missing parameters or body"),
            tags: Vec::new(),
        };
        proof {
            lemma_dviews_push(out@, d);
        }
        out.push(d);
    }
    if contains_str_in(line, "turbo ") && !contains_char_in(line, '=') {
        let st = find_str_in(line, "turbo ");
        let d = Diagnostic {
            range: mk_range(ln, st, ln, line.len()),
            severity: Severity::Error,
            code: DiagCode::MissingAssignment,
            message: String::from_str("Variable declaration missing assignment"),
            tags: Vec::new(),
        };
        proof {
            lemma_dviews_push(out@, d);
        }
        out.push(d);
    }
    proof {
        assert(dviews(out@) =~= dviews(pre) + spec_syntax_line(line@, ln as int));
    }
}

/// The syntax pass over the first `n` lines.
pub open spec fn spec_syntax_upto(ls: Seq<Seq<char>>, n: int) -> Seq<DiagView>
    decreases n
        when 0 <= n <= ls.len()
{
    if n <= 0 {
        Seq::empty()
    } else {
        spec_syntax_upto(ls, n - 1) + spec_syntax_line(ls[n - 1], n - 1)
    }
}

/// The syntax pass over a whole document.
pub open spec fn spec_syntax(ls: Seq<Seq<char>>) -> Seq<DiagView> {
    spec_syntax_upto(ls, ls.len() as int)
}

/// Per-line syntax heuristics (balance of brackets, declaration shape).
pub fn check_syntax_errors(lines: &Vec<Vec<char>>) -> (out: Vec<Diagnostic>)
    ensures
        dviews(out@) == spec_syntax(line_views(lines@)),
{
    let ghost lv = line_views(lines@);
    let mut out: Vec<Diagnostic> = Vec::new();
    let mut i: usize = 0;
    while i < lines.len()
        invariant
            0 <= i <= lines@.len(),
            lv == line_views(lines@),
            dviews(out@) =~= spec_syntax_upto(lv, i as int),
        decreases lines@.len() - i,
    {
        syntax_line(lines[i].as_slice(), i, &mut out);
        proof {
            assert(lv[i as int] == lines@[i as int]@);
            assert(spec_syntax_upto(lv, i + 1 as int) == spec_syntax_upto(lv, i as int)
                + spec_syntax_line(lv[i as int], i as int));
        }
        i += 1;
    }
    out
}

/// Diagnostics of the type/usage pass for one line: a bare `=` that looks
/// like a mistyped comparison, an unknown `io.p...` member, and
/// `math.sin`/`math.cos` calls without a radians conversion.
pub open spec fn spec_type_line(line: Seq<char>, ln: int) -> Seq<DiagView> {
    (if find_char(line, '=') < line.len() && !contains_sub(line, "=="@) && !contains_sub(
        line,
        "!="@,
    ) && !contains_sub(line, "turbo "@) && !contains_sub(line, "loop "@) {
        seq![
            DiagView {
                range: range_v(ln, find_char(line, '='), ln, find_char(line, '=') + 1),
                severity: Severity::Warning,
                code: DiagCode::PossibleAssignment,
                message: "Possible assignment (=) in expression, did you mean comparison (==)?"@,
                tags: Seq::empty(),
            },
        ]
    } else {
        Seq::empty()
    }) + (if contains_sub(line, "io.p"@) && !contains_sub(line, "io.print"@) && !contains_sub(
        line,
        "io.println"@,
    ) {
        seq![
            DiagView {
                range: range_v(ln, find_sub(line, "io.p"@), ln, find_sub(line, "io.p"@) + 4),
                severity: Severity::Error,
                code: DiagCode::UnknownIo,
                message: "Unknown io function. Did you mean io.print or io.println?"@,
                tags: Seq::empty(),
            },
        ]
    } else {
        Seq::empty()
    }) + (if contains_sub(line, "math.sin("@) && !contains_sub(line, "math.radians"@) {
        seq![
            DiagView {
                range: range_v(
                    ln,
                    find_sub(line, "math.sin("@),
                    ln,
                    find_sub(line, "math.sin("@) + 8,
                ),
                severity: Severity::Warning,
                code: DiagCode::SinRadians,
                message: "math.sin() expects radians. Consider wrapping with math.radians()"@,
                tags: Seq::empty(),
            },
        ]
    } else {
        Seq::empty()
    }) + (if contains_sub(line, "math.cos("@) && !contains_sub(line, "math.radians"@) {
        seq![
            DiagView {
                range: range_v(
                    ln,
                    find_sub(line, "math.cos("@),
                    ln,
                    find_sub(line, "math.cos("@) + 8,
                ),
                severity: Severity::Warning,
                code: DiagCode::CosRadians,
                message: "math.cos() expects radians. Consider wrapping with math.radians()"@,
                tags: Seq::empty(),
            },
        ]
    } else {
        Seq::empty()
    })
}

fn type_line(line: &[char], ln: usize, out: &mut Vec<Diagnostic>)
    ensures
        dviews(final(out)@) == dviews(old(out)@) + spec_type_line(line@, ln as int),
{
    let ghost pre = out@;
    let _line_len = line.len();
    if contains_char_in(line, '=') && !contains_str_in(line, "==") && !contains_str_in(line, "!=")
        && !contains_str_in(line, "turbo ") && !contains_str_in(line, "loop ") {
        let p = find_char_in(line, '=');
        proof {
            lemma_find_char(line@, '=');
        }
        let d = Diagnostic {
            range: mk_range(ln, p, ln, p + 1),
            severity: Severity::Warning,
            code: DiagCode::PossibleAssignment,
            message: String::from_str(
                "Possible assignment (=) in expression, did you mean comparison (==)?",
            ),
            tags: Vec::new(),
        };
        proof {
            lemma_dviews_push(out@, d);
        }
        out.push(d);
    }
    if contains_str_in(line, "io.p") && !contains_str_in(line, "io.print") && !contains_str_in(
        line,
        "io.println",
    ) {
        let p = find_str_in(line, "io.p");
        proof {
            reveal_strlit("io.p");
            lemma_find_sub(line@, "io.p"@);
        }
        let d = Diagnostic {
            range: mk_range(ln, p, ln, p + 4),
            severity: Severity::Error,
            code: DiagCode::UnknownIo,
            message: String::from_str("Unknown io function. Did you mean io.print or io.println?"),
            tags: Vec::new(),
        };
        proof {
            lemma_dviews_push(out@, d);
        }
        out.push(d);
    }
    if contains_str_in(line, "math.sin(") && !contains_str_in(line, "math.radians") {
        let p = find_str_in(line, "math.sin(");
        proof {
            reveal_strlit("math.sin(");
            lemma_find_sub(line@, "math.sin("@);
        }
        let d = Diagnostic {
            range: mk_range(ln, p, ln, p + 8),
            severity: Severity::Warning,
            code: DiagCode::SinRadians,
            message: String::from_str(
                "math.sin() expects radians. Consider wrapping with math.radians()",
            ),
            tags: Vec::new(),
        };
        proof {
            lemma_dviews_push(out@, d);
        }
        out.push(d);
    }
    if contains_str_in(line, "math.cos(") && !contains_str_in(line, "math.radians") {
        let p = find_str_in(line, "math.cos(");
        proof {
            reveal_strlit("math.cos(");
            lemma_find_sub(line@, "math.cos("@);
        }
        let d = Diagnostic {
            range: mk_range(ln, p, ln, p + 8),
            severity: Severity::Warning,
            code: DiagCode::CosRadians,
            message: String::from_str(
                "math.cos() expects radians. Consider wrapping with math.radians()",
            ),
            tags: Vec::new(),
        };
        proof {
            lemma_dviews_push(out@, d);
        }
        out.push(d);
    }
    proof {
        assert(dviews(out@) =~= dviews(pre) + spec_type_line(line@, ln as int));
    }
}

/// The type/usage pass over the first `n` lines.
pub open spec fn spec_type_upto(ls: Seq<Seq<char>>, n: int) -> Seq<DiagView>
    decreases n
        when 0 <= n <= ls.len()
{
    if n <= 0 {
        Seq::empty()
    } else {
        spec_type_upto(ls, n - 1) + spec_type_line(ls[n - 1], n - 1)
    }
}

/// The type/usage pass over a whole document.
pub open spec fn spec_type(ls: Seq<Seq<char>>) -> Seq<DiagView> {
    spec_type_upto(ls, ls.len() as int)
}

/// Per-line assignment-vs-comparison, io member and radians heuristics.
pub fn check_type_errors(lines: &Vec<Vec<char>>) -> (out: Vec<Diagnostic>)
    ensures
        dviews(out@) == spec_type(line_views(lines@)),
{
    let ghost lv = line_views(lines@);
    let mut out: Vec<Diagnostic> = Vec::new();
    let mut i: usize = 0;
    while i < lines.len()
        invariant
            0 <= i <= lines@.len(),
            lv == line_views(lines@),
            dviews(out@) =~= spec_type_upto(lv, i as int),
        decreases lines@.len() - i,
    {
        type_line(lines[i].as_slice(), i, &mut out);
        proof {
            assert(lv[i as int] == lines@[i as int]@);
            assert(spec_type_upto(lv, i + 1 as int) == spec_type_upto(lv, i as int)
                + spec_type_line(lv[i as int], i as int));
        }
        i += 1;
    }
    out
}

/// Message for an over-long line.
pub open spec fn msg_line_too_long(n: nat) -> Seq<char> {
    "Line too long ("@ + dec_str(n) + " characters), consider splitting"@
}

/// Message for odd indentation.
pub open spec fn msg_indentation(n: nat) -> Seq<char> {
    "Indentation is "@ + dec_str(n) + " spaces, consider using multiples of 2"@
}

fn line_too_long_msg(n: usize) -> (m: String)
    ensures
        m@ == msg_line_too_long(n as nat),
{
    let mut m = String::from_str("Line too long (");
    let ns = usize_to_string(n);
    m.append(ns.as_str());
    m.append(" characters), consider splitting");
    proof {
        assert(m@ =~= msg_line_too_long(n as nat));
    }
    m
}

fn indentation_msg(n: usize) -> (m: String)
    ensures
        m@ == msg_indentation(n as nat),
{
    let mut m = String::from_str("Indentation is ");
    let ns = usize_to_string(n);
    m.append(ns.as_str());
    m.append(" spaces, consider using multiples of 2");
    proof {
        assert(m@ =~= msg_indentation(n as nat));
    }
    m
}

/// Diagnostics of the style pass for one line: over-long lines, a second
/// `if ` on the same line, and a leading-space run of more than ten
/// spaces whose length is odd.
pub open spec fn spec_style_line(line: Seq<char>, ln: int) -> Seq<DiagView> {
    (if line.len() > 100 {
        seq![
            DiagView {
                range: range_v(ln, 100, ln, line.len() as int),
                severity: Severity::Information,
                code: DiagCode::LineTooLong,
                message: msg_line_too_long(line.len()),
                tags: Seq::empty(),
            },
        ]
    } else {
        Seq::empty()
    }) + (if contains_sub(line, "if "@) && contains_sub(line.skip(find_sub(line, "if "@) + 3), "if "@) {
        let first = find_sub(line, "if "@);
        let offset = find_sub(line.skip(first + 3), "if "@);
        seq![
            DiagView {
                range: range_v(ln, first + offset, ln, first + offset + 2),
                severity: Severity::Warning,
                code: DiagCode::NestedIf,
                message: "Nested if statement. Consider using elif or restructuring logic"@,
                tags: Seq::empty(),
            },
        ]
    } else {
        Seq::empty()
    }) + (if crate::text::leading_run(line, ' ') > 10 && crate::text::leading_run(line, ' ') % 2
        != 0 {
        seq![
            DiagView {
                range: range_v(ln, 0, ln, crate::text::leading_run(line, ' ')),
                severity: Severity::Information,
                code: DiagCode::OddIndentation,
                message: msg_indentation(crate::text::leading_run(line, ' ') as nat),
                tags: Seq::empty(),
            },
        ]
    } else {
        Seq::empty()
    })
}

fn style_line(line: &[char], ln: usize, out: &mut Vec<Diagnostic>)
    ensures
        dviews(final(out)@) == dviews(old(out)@) + spec_style_line(line@, ln as int),
{
    let ghost pre = out@;
    if line.len() > 100 {
        let d = Diagnostic {
            range: mk_range(ln, 100, ln, line.len()),
            severity: Severity::Information,
            code: DiagCode::LineTooLong,
            message: line_too_long_msg(line.len()),
            tags: Vec::new(),
        };
        proof {
            lemma_dviews_push(out@, d);
        }
        out.push(d);
    }
    if contains_str_in(line, "if ") {
        let first = find_str_in(line, "if ");
        proof {
            reveal_strlit("if ");
            lemma_find_sub(line@, "if "@);
        }
        let rest = vstd::slice::slice_subrange(line, first + 3, line.len());
        proof {
            assert(rest@ =~= line@.skip(find_sub(line@, "if "@) + 3));
        }
        if contains_str_in(rest, "if ") {
            let offset = find_str_in(rest, "if ");
            proof {
                lemma_find_sub(rest@, "if "@);
            }
            let d = Diagnostic {
                range: mk_range(ln, first + offset, ln, first + offset + 2),
                severity: Severity::Warning,
                code: DiagCode::NestedIf,
                message: String::from_str(
                    "Nested if statement. Consider using elif or restructuring logic",
                ),
                tags: Vec::new(),
            };
            proof {
                lemma_dviews_push(out@, d);
            }
            out.push(d);
        }
    }
    let spaces = crate::text::leading_run_in(line, ' ');
    if spaces > 10 && spaces % 2 != 0 {
        let d = Diagnostic {
            range: mk_range(ln, 0, ln, spaces),
            severity: Severity::Information,
            code: DiagCode::OddIndentation,
            message: indentation_msg(spaces),
            tags: Vec::new(),
        };
        proof {
            lemma_dviews_push(out@, d);
        }
        out.push(d);
    }
    proof {
        assert(dviews(out@) =~= dviews(pre) + spec_style_line(line@, ln as int));
    }
}

/// The style pass over the first `n` lines.
pub open spec fn spec_style_upto(ls: Seq<Seq<char>>, n: int) -> Seq<DiagView>
    decreases n
        when 0 <= n <= ls.len()
{
    if n <= 0 {
        Seq::empty()
    } else {
        spec_style_upto(ls, n - 1) + spec_style_line(ls[n - 1], n - 1)
    }
}

/// The style pass over a whole document.
pub open spec fn spec_style(ls: Seq<Seq<char>>) -> Seq<DiagView> {
    spec_style_upto(ls, ls.len() as int)
}

/// Per-line style heuristics (length, nested `if`, indentation).
pub fn check_style_issues(lines: &Vec<Vec<char>>) -> (out: Vec<Diagnostic>)
    ensures
        dviews(out@) == spec_style(line_views(lines@)),
{
    let ghost lv = line_views(lines@);
    let mut out: Vec<Diagnostic> = Vec::new();
    let mut i: usize = 0;
    while i < lines.len()
        invariant
            0 <= i <= lines@.len(),
            lv == line_views(lines@),
            dviews(out@) =~= spec_style_upto(lv, i as int),
        decreases lines@.len() - i,
    {
        style_line(lines[i].as_slice(), i, &mut out);
        proof {
            assert(lv[i as int] == lines@[i as int]@);
            assert(spec_style_upto(lv, i + 1 as int) == spec_style_upto(lv, i as int)
                + spec_style_line(lv[i as int], i as int));
        }
        i += 1;
    }
    out
}

/// End (exclusive) of an `array.concat(...)` call expression starting at
/// `i`: the keyword, at least one non-`)` argument character, and a
/// closing `)`. Yields `-1` when no such expression starts at `i`.
pub open spec fn concat_match_end(line: Seq<char>, i: int) -> int {
    let pl = "array.concat("@.len() as int;
    if crate::text::is_match_at(line, "array.concat("@, i) {
        let k = find_char(line.skip(i + pl), ')');
        if 1 <= k && k < line.skip(i + pl).len() {
            i + pl + k + 1
        } else {
            -1
        }
    } else {
        -1
    }
}

/// Diagnostics for every `array.concat(...)` expression at or after
/// position `p`, scanning left to right and resuming after each match.
pub open spec fn spec_perf_concat_from(line: Seq<char>, ln: int, p: int) -> Seq<DiagView>
    decreases line.len() - p
        when 0 <= p
{
    if p >= line.len() {
        Seq::empty()
    } else {
        let e = concat_match_end(line, p);
        let next = if p < e && e <= line.len() {
            e
        } else {
            p + 1
        };
        if e >= 0 {
            seq![concat_diag(ln, p, e)] + spec_perf_concat_from(line, ln, next)
        } else {
            spec_perf_concat_from(line, ln, next)
        }
    }
}

/// The diagnostic reported for one `array.concat(...)` expression.
pub open spec fn concat_diag(ln: int, start: int, end: int) -> DiagView {
    DiagView {
        range: range_v(ln, start, ln, end),
        severity: Severity::Information,
        code: DiagCode::ArrayConcat,
        message: "array.concat() creates new arrays. Consider using array.push() in loop"@,
        tags: Seq::empty(),
    }
}

fn perf_concat_scan(line: &[char], ln: usize, out: &mut Vec<Diagnostic>)
    ensures
        dviews(final(out)@) == dviews(old(out)@) + spec_perf_concat_from(line@, ln as int, 0),
{
    let pl = "array.concat(".unicode_len();
    proof {
        reveal_strlit("array.concat(");
    }
    let n = line.len();
    let mut p: usize = 0;
    while p < n
        invariant
            0 <= p <= n,
            n == line@.len(),
            pl == "array.concat("@.len(),
            dviews(out@) + spec_perf_concat_from(line@, ln as int, p as int) =~= dviews(
                old(out)@,
            ) + spec_perf_concat_from(line@, ln as int, 0),
        decreases n - p,
    {
        if crate::text::match_str_at(line, "array.concat(", p) {
            let rest = vstd::slice::slice_subrange(line, p + pl, n);
            proof {
                assert(rest@ =~= line@.skip(p + pl));
            }
            let k = find_char_in(rest, ')');
            if 1 <= k && k < rest.len() {
                let e = p + pl + k + 1;
                let d = Diagnostic {
                    range: mk_range(ln, p, ln, e),
                    severity: Severity::Information,
                    code: DiagCode::ArrayConcat,
                    message: String::from_str(
                        "array.concat() creates new arrays. Consider using array.push() in loop",
                    ),
                    tags: Vec::new(),
                };
                proof {
                    assert(concat_match_end(line@, p as int) == e as int);
                    lemma_dviews_push(out@, d);
                    assert(dviews(out@).push(d@) + spec_perf_concat_from(line@, ln as int, e as int)
                        =~= dviews(out@) + spec_perf_concat_from(line@, ln as int, p as int));
                }
                out.push(d);
                p = e;
            } else {
                proof {
                    assert(concat_match_end(line@, p as int) == -1);
                }
                p += 1;
            }
        } else {
            proof {
                assert(concat_match_end(line@, p as int) == -1);
            }
            p += 1;
        }
    }
    proof {
        assert(spec_perf_concat_from(line@, ln as int, p as int) =~= Seq::<DiagView>::empty());
        assert(dviews(out@) =~= dviews(out@) + Seq::<DiagView>::empty());
        assert(dviews(old(out)@) + spec_perf_concat_from(line@, ln as int, 0) =~= dviews(out@));
    }
}

/// Diagnostics of the performance pass for one line: `io.print` on a
/// loop line, and `array.concat(...)` expressions.
pub open spec fn spec_perf_line(line: Seq<char>, ln: int) -> Seq<DiagView> {
    (if contains_sub(line, "io.print"@) && contains_sub(line, "loop "@) {
        seq![
            DiagView {
                range: range_v(
                    ln,
                    find_sub(line, "io.print"@),
                    ln,
                    find_sub(line, "io.print"@) + 8,
                ),
                severity: Severity::Warning,
                code: DiagCode::PrintInLoop,
                message: "io.print inside loop may impact performance. Consider buffering or batching"@,
                tags: seq![DiagTag::Unnecessary],
            },
        ]
    } else {
        Seq::empty()
    }) + spec_perf_concat_from(line, ln, 0)
}

fn perf_line(line: &[char], ln: usize, out: &mut Vec<Diagnostic>)
    ensures
        dviews(final(out)@) == dviews(old(out)@) + spec_perf_line(line@, ln as int),
{
    let ghost pre = out@;
    let _line_len = line.len();
    if contains_str_in(line, "io.print") && contains_str_in(line, "loop ") {
        let p = find_str_in(line, "io.print");
        proof {
            reveal_strlit("io.print");
            lemma_find_sub(line@, "io.print"@);
        }
        let mut tags: Vec<DiagTag> = Vec::new();
        tags.push(DiagTag::Unnecessary);
        proof {
            assert(tags@ =~= seq![DiagTag::Unnecessary]);
        }
        let d = Diagnostic {
            range: mk_range(ln, p, ln, p + 8),
            severity: Severity::Warning,
            code: DiagCode::PrintInLoop,
            message: String::from_str(
                "io.print inside loop may impact performance. Consider buffering or batching",
            ),
            tags,
        };
        proof {
            lemma_dviews_push(out@, d);
        }
        out.push(d);
    }
    perf_concat_scan(line, ln, out);
    proof {
        assert(dviews(out@) =~= dviews(pre) + spec_perf_line(line@, ln as int));
    }
}

/// The performance pass over the first `n` lines.
pub open spec fn spec_perf_upto(ls: Seq<Seq<char>>, n: int) -> Seq<DiagView>
    decreases n
        when 0 <= n <= ls.len()
{
    if n <= 0 {
        Seq::empty()
    } else {
        spec_perf_upto(ls, n - 1) + spec_perf_line(ls[n - 1], n - 1)
    }
}

/// The performance pass over a whole document.
pub open spec fn spec_perf(ls: Seq<Seq<char>>) -> Seq<DiagView> {
    spec_perf_upto(ls, ls.len() as int)
}

/// Per-line performance heuristics (printing in loops, array concatenation).
pub fn check_performance_issues(lines: &Vec<Vec<char>>) -> (out: Vec<Diagnostic>)
    ensures
        dviews(out@) == spec_perf(line_views(lines@)),
{
    let ghost lv = line_views(lines@);
    let mut out: Vec<Diagnostic> = Vec::new();
    let mut i: usize = 0;
    while i < lines.len()
        invariant
            0 <= i <= lines@.len(),
            lv == line_views(lines@),
            dviews(out@) =~= spec_perf_upto(lv, i as int),
        decreases lines@.len() - i,
    {
        perf_line(lines[i].as_slice(), i, &mut out);
        proof {
            assert(lv[i as int] == lines@[i as int]@);
            assert(spec_perf_upto(lv, i + 1 as int) == spec_perf_upto(lv, i as int)
                + spec_perf_line(lv[i as int], i as int));
        }
        i += 1;
    }
    out
}

/// The declared name on a `blast ` function-declaration line: the text
/// after the keyword up to the first `(`, trimmed.
pub open spec fn blast_name(line: Seq<char>) -> Seq<char> {
    let rest = line.skip("blast "@.len() as int);
    crate::text::trim_spaces(rest.take(find_char(rest, '(')))
}

/// Names declared by `blast ` lines among the first `n` lines.
pub open spec fn defined_funs_upto(ls: Seq<Seq<char>>, n: int) -> Seq<Seq<char>>
    decreases n
        when 0 <= n <= ls.len()
{
    if n <= 0 {
        Seq::empty()
    } else {
        defined_funs_upto(ls, n - 1) + (if crate::text::has_prefix(ls[n - 1], "blast "@) {
            seq![blast_name(ls[n - 1])]
        } else {
            Seq::empty()
        })
    }
}

/// All function names declared in the document.
pub open spec fn defined_funs(ls: Seq<Seq<char>>) -> Seq<Seq<char>> {
    defined_funs_upto(ls, ls.len() as int)
}

/// Collects the function names declared by `blast ` lines.
pub fn collect_defined_funs(lines: &Vec<Vec<char>>) -> (r: Vec<Vec<char>>)
    ensures
        line_views(r@) == defined_funs(line_views(lines@)),
{
    let ghost lv = line_views(lines@);
    let kw_len = "blast ".unicode_len();
    proof {
        reveal_strlit("blast ");
    }
    let mut r: Vec<Vec<char>> = Vec::new();
    let mut i: usize = 0;
    while i < lines.len()
        invariant
            0 <= i <= lines@.len(),
            lv == line_views(lines@),
            kw_len == "blast "@.len(),
            line_views(r@) =~= defined_funs_upto(lv, i as int),
        decreases lines@.len() - i,
    {
        let line = lines[i].as_slice();
        proof {
            assert(lv[i as int] == lines@[i as int]@);
        }
        if crate::text::starts_with_str(line, "blast ") {
            let rest = vstd::slice::slice_subrange(line, kw_len, line.len());
            proof {
                assert(rest@ =~= line@.skip("blast "@.len() as int));
                lemma_find_char(rest@, '(');
            }
            let k = find_char_in(rest, '(');
            let upto = vstd::slice::slice_subrange(rest, 0, k);
            proof {
                assert(upto@ =~= rest@.take(find_char(rest@, '(')));
            }
            let name = crate::text::trim_in(upto);
            r.push(name);
            proof {
                assert(line_views(r@) =~= defined_funs_upto(lv, i as int).push(
                    blast_name(lv[i as int]),
                ));
                assert(defined_funs_upto(lv, i + 1 as int) =~= defined_funs_upto(lv, i as int)
                    + seq![blast_name(lv[i as int])]);
            }
        } else {
            proof {
                assert(defined_funs_upto(lv, i + 1 as int) =~= defined_funs_upto(lv, i as int)
                    + Seq::<Seq<char>>::empty());
                assert(defined_funs_upto(lv, i + 1 as int) =~= defined_funs_upto(lv, i as int));
            }
        }
        i += 1;
    }
    r
}

/// Control-flow keywords that look like calls but are not.
pub open spec fn is_ctrl_kw(name: Seq<char>) -> bool {
    name == "if"@ || name == "else"@ || name == "loop"@ || name == "cruise"@
}

fn ctrl_kw(name: &[char]) -> (b: bool)
    ensures
        b == is_ctrl_kw(name@),
{
    crate::text::chars_eq_str(name, "if") || crate::text::chars_eq_str(name, "else")
        || crate::text::chars_eq_str(name, "loop") || crate::text::chars_eq_str(name, "cruise")
}

/// Whether `name` is recognized as part of the standard library: it
/// starts with one of the module prefixes, or is itself a reserved word.
pub open spec fn spec_is_stdlib(name: Seq<char>) -> bool {
    crate::text::has_prefix(name, "io"@) || crate::text::has_prefix(name, "math"@)
        || crate::text::has_prefix(name, "string"@) || crate::text::has_prefix(name, "array"@)
        || crate::text::has_prefix(name, "json"@) || crate::text::has_prefix(name, "fs"@)
        || crate::text::has_prefix(name, "net"@) || crate::text::has_prefix(name, "http"@)
        || crate::text::has_prefix(name, "db"@) || crate::text::has_prefix(name, "async"@) || name
        == "echo"@ || name == "blast"@ || name == "turbo"@ || name == "loop"@ || name == "cruise"@
        || name == "if"@ || name == "else"@ || name == "elif"@ || name == "return"@ || name
        == "break"@ || name == "continue"@ || name == "import"@ || name == "export"@ || name
        == "spawn"@ || name == "await"@
}

/// Whether `name` is a standard-library name or reserved word.
pub fn is_stdlib_function(name: &[char]) -> (b: bool)
    ensures
        b == spec_is_stdlib(name@),
{
    crate::text::starts_with_str(name, "io") || crate::text::starts_with_str(name, "math")
        || crate::text::starts_with_str(name, "string") || crate::text::starts_with_str(
        name,
        "array",
    ) || crate::text::starts_with_str(name, "json") || crate::text::starts_with_str(name, "fs")
        || crate::text::starts_with_str(name, "net") || crate::text::starts_with_str(name, "http")
        || crate::text::starts_with_str(name, "db") || crate::text::starts_with_str(name, "async")
        || crate::text::chars_eq_str(name, "echo") || crate::text::chars_eq_str(name, "blast")
        || crate::text::chars_eq_str(name, "turbo") || crate::text::chars_eq_str(name, "loop")
        || crate::text::chars_eq_str(name, "cruise") || crate::text::chars_eq_str(name, "if")
        || crate::text::chars_eq_str(name, "else") || crate::text::chars_eq_str(name, "elif")
        || crate::text::chars_eq_str(name, "return") || crate::text::chars_eq_str(name, "break")
        || crate::text::chars_eq_str(name, "continue") || crate::text::chars_eq_str(name, "import")
        || crate::text::chars_eq_str(name, "export") || crate::text::chars_eq_str(name, "spawn")
        || crate::text::chars_eq_str(name, "await")
}

/// Whether `x` occurs in the list of names.
pub open spec fn name_in(names: Seq<Seq<char>>, x: Seq<char>) -> bool {
    exists|i: int| 0 <= i < names.len() && names[i] == x
}

fn name_list_contains(names: &Vec<Vec<char>>, x: &[char]) -> (b: bool)
    ensures
        b == name_in(line_views(names@), x@),
{
    let ghost nv = line_views(names@);
    let mut i: usize = 0;
    while i < names.len()
        invariant
            0 <= i <= names@.len(),
            nv == line_views(names@),
            forall|k: int| 0 <= k < i ==> nv[k] != x@,
        decreases names@.len() - i,
    {
        proof {
            assert(nv[i as int] == names@[i as int]@);
        }
        if crate::text::chars_eq(names[i].as_slice(), x) {
            return true;
        }
        i += 1;
    }
    false
}

/// The called name ending just before the `(` at position `j`.
pub open spec fn sem_name(line: Seq<char>, j: int) -> Seq<char> {
    line.subrange(crate::text::word_run_start(line, j), j)
}

/// Whether the `(` at position `j` is a call of an undefined function.
pub open spec fn sem_flagged(line: Seq<char>, j: int, funs: Seq<Seq<char>>) -> bool {
    &&& line[j] == '('
    &&& crate::text::word_run_start(line, j) < j
    &&& !is_ctrl_kw(sem_name(line, j))
    &&& !name_in(funs, sem_name(line, j))
    &&& !spec_is_stdlib(sem_name(line, j))
}

/// The diagnostic reported for an undefined call at position `j`.
pub open spec fn undef_diag(line: Seq<char>, ln: int, j: int) -> DiagView {
    DiagView {
        range: range_v(ln, crate::text::word_run_start(line, j), ln, j),
        severity: Severity::Error,
        code: DiagCode::UndefinedFunction,
        message: "Undefined function: "@ + sem_name(line, j),
        tags: Seq::empty(),
    }
}

/// Diagnostics of the semantic pass for one line, over call sites whose
/// `(` lies among the first `j` positions.
pub open spec fn spec_sem_line_upto(line: Seq<char>, ln: int, funs: Seq<Seq<char>>, j: int) -> Seq<
    DiagView,
>
    decreases j
        when 0 <= j <= line.len()
{
    if j <= 0 {
        Seq::empty()
    } else {
        spec_sem_line_upto(line, ln, funs, j - 1) + (if sem_flagged(line, j - 1, funs) {
            seq![undef_diag(line, ln, j - 1)]
        } else {
            Seq::empty()
        })
    }
}

/// Diagnostics of the semantic pass for one line.
pub open spec fn spec_semantic_line(line: Seq<char>, ln: int, funs: Seq<Seq<char>>) -> Seq<
    DiagView,
> {
    spec_sem_line_upto(line, ln, funs, line.len() as int)
}

fn undef_msg(name: &[char]) -> (m: String)
    ensures
        m@ == "Undefined function: "@ + name@,
{
    let mut m = String::from_str("Undefined function: ");
    let ns = crate::text::chars_to_string(name);
    m.append(ns.as_str());
    m
}

fn semantic_line(line: &[char], ln: usize, funs: &Vec<Vec<char>>, out: &mut Vec<Diagnostic>)
    ensures
        dviews(final(out)@) == dviews(old(out)@) + spec_semantic_line(
            line@,
            ln as int,
            line_views(funs@),
        ),
{
    let ghost pre = out@;
    let ghost fv = line_views(funs@);
    let n = line.len();
    let mut j: usize = 0;
    while j < n
        invariant
            0 <= j <= n,
            n == line@.len(),
            fv == line_views(funs@),
            dviews(out@) =~= dviews(pre) + spec_sem_line_upto(line@, ln as int, fv, j as int),
        decreases n - j,
    {
        if line[j] == '(' {
            let mut rs: usize = j;
            while rs > 0 && crate::text::word_char(line[rs - 1])
                invariant
                    0 <= rs <= j <= n,
                    n == line@.len(),
                    crate::text::word_run_start(line@, j as int) == crate::text::word_run_start(
                        line@,
                        rs as int,
                    ),
                decreases rs,
            {
                rs -= 1;
            }
            proof {
                assert(crate::text::word_run_start(line@, rs as int) == rs as int);
            }
            if rs < j {
                let name = vstd::slice::slice_subrange(line, rs, j);
                proof {
                    assert(name@ =~= sem_name(line@, j as int));
                }
                if !ctrl_kw(name) && !name_list_contains(funs, name) && !is_stdlib_function(name) {
                    let d = Diagnostic {
                        range: mk_range(ln, rs, ln, j),
                        severity: Severity::Error,
                        code: DiagCode::UndefinedFunction,
                        message: undef_msg(name),
                        tags: Vec::new(),
                    };
                    proof {
                        lemma_dviews_push(out@, d);
                    }
                    out.push(d);
                }
            }
        }
        proof {
            assert(spec_sem_line_upto(line@, ln as int, fv, j + 1 as int) == spec_sem_line_upto(
                line@,
                ln as int,
                fv,
                j as int,
            ) + (if sem_flagged(line@, j as int, fv) {
                seq![undef_diag(line@, ln as int, j as int)]
            } else {
                Seq::<DiagView>::empty()
            }));
            assert(dviews(out@) =~= dviews(pre) + spec_sem_line_upto(
                line@,
                ln as int,
                fv,
                j + 1 as int,
            ));
        }
        j += 1;
    }
}

/// The semantic pass over the first `n` lines, given the declared names.
pub open spec fn spec_semantic_upto(ls: Seq<Seq<char>>, funs: Seq<Seq<char>>, n: int) -> Seq<
    DiagView,
>
    decreases n
        when 0 <= n <= ls.len()
{
    if n <= 0 {
        Seq::empty()
    } else {
        spec_semantic_upto(ls, funs, n - 1) + spec_semantic_line(ls[n - 1], n - 1, funs)
    }
}

/// The semantic pass over a whole document: calls of names that are
/// neither declared in the document nor standard-library names.
pub open spec fn spec_semantic(ls: Seq<Seq<char>>) -> Seq<DiagView> {
    spec_semantic_upto(ls, defined_funs(ls), ls.len() as int)
}

/// Undefined-function analysis over call-like tokens. Call names are
/// runs of ASCII identifier characters, so a call under a non-ASCII name
/// is never flagged.
pub fn check_semantic_errors(lines: &Vec<Vec<char>>) -> (out: Vec<Diagnostic>)
    ensures
        dviews(out@) == spec_semantic(line_views(lines@)),
{
    let ghost lv = line_views(lines@);
    let funs = collect_defined_funs(lines);
    let ghost fv = line_views(funs@);
    let mut out: Vec<Diagnostic> = Vec::new();
    let mut i: usize = 0;
    while i < lines.len()
        invariant
            0 <= i <= lines@.len(),
            lv == line_views(lines@),
            fv == line_views(funs@),
            fv == defined_funs(lv),
            dviews(out@) =~= spec_semantic_upto(lv, fv, i as int),
        decreases lines@.len() - i,
    {
        semantic_line(lines[i].as_slice(), i, &funs, &mut out);
        proof {
            assert(lv[i as int] == lines@[i as int]@);
            assert(spec_semantic_upto(lv, fv, i + 1 as int) == spec_semantic_upto(lv, fv, i as int)
                + spec_semantic_line(lv[i as int], i as int, fv));
        }
        i += 1;
    }
    out
}

/// Every diagnostic of every pass, in the fixed pass order: syntax,
/// semantic, type/usage, style, performance. The analysis is a pure
/// function of the text: this spec function is its full definition.
pub open spec fn spec_analyze(text: Seq<char>) -> Seq<DiagView> {
    let ls = spec_lines(text);
    spec_syntax(ls) + spec_semantic(ls) + spec_type(ls) + spec_style(ls) + spec_perf(ls)
}

/// Runs the five analysis passes over `text` and concatenates their
/// diagnostics in the fixed pass order.
pub fn analyze(text: &str) -> (r: Vec<Diagnostic>)
    ensures
        dviews(r@) == spec_analyze(text@),
{
    let lines = split_lines(text);
    let mut r = check_syntax_errors(&lines);
    let mut sem = check_semantic_errors(&lines);
    let mut ty = check_type_errors(&lines);
    let mut st = check_style_issues(&lines);
    let mut pe = check_performance_issues(&lines);
    proof {
        lemma_dviews_add(r@, sem@);
    }
    r.append(&mut sem);
    proof {
        lemma_dviews_add(r@, ty@);
    }
    r.append(&mut ty);
    proof {
        lemma_dviews_add(r@, st@);
    }
    r.append(&mut st);
    proof {
        lemma_dviews_add(r@, pe@);
    }
    r.append(&mut pe);
    proof {
        assert(dviews(r@) =~= spec_analyze(text@));
    }
    r
}

/// Line-length rule: a line over 100 characters yields exactly one
/// over-length diagnostic in the style pass — an Information diagnostic
/// starting at column 100 and ending at the line's length — and a line
/// of at most 100 characters yields none. No other style diagnostic
/// carries the over-length code.
pub proof fn lemma_line_length_rule(line: Seq<char>, ln: int)
    ensures
        line.len() > 100 ==> spec_style_line(line, ln)[0] == (DiagView {
            range: range_v(ln, 100, ln, line.len() as int),
            severity: Severity::Information,
            code: DiagCode::LineTooLong,
            message: msg_line_too_long(line.len()),
            tags: Seq::empty(),
        }),
        line.len() > 100 ==> forall|j: int|
            1 <= j < spec_style_line(line, ln).len() ==> (#[trigger] spec_style_line(line, ln)[j]).code
                != DiagCode::LineTooLong,
        line.len() <= 100 ==> forall|j: int|
            0 <= j < spec_style_line(line, ln).len() ==> (#[trigger] spec_style_line(line, ln)[j]).code
                != DiagCode::LineTooLong,
{
    let ds = spec_style_line(line, ln);
    let first = (if line.len() > 100 {
        seq![
            DiagView {
                range: range_v(ln, 100, ln, line.len() as int),
                severity: Severity::Information,
                code: DiagCode::LineTooLong,
                message: msg_line_too_long(line.len()),
                tags: Seq::empty(),
            },
        ]
    } else {
        Seq::<DiagView>::empty()
    });
    assert forall|j: int| first.len() <= j < ds.len() implies (#[trigger] ds[j]).code
        != DiagCode::LineTooLong by {
        if contains_sub(line, "if "@) && contains_sub(line.skip(find_sub(line, "if "@) + 3), "if "@)
            && j == first.len() {
            assert(ds[j].code == DiagCode::NestedIf);
        } else {
            assert(ds[j].code == DiagCode::OddIndentation);
        }
    }
}

/// The analysis is deterministic: the diagnostic list is a function of
/// the text alone, so equal texts produce equal lists, in the same order
/// and with the same fields.
pub proof fn lemma_analyze_deterministic(t1: Seq<char>, t2: Seq<char>)
    requires
        t1 == t2,
    ensures
        spec_analyze(t1) == spec_analyze(t2),
{
}

} // verus!
