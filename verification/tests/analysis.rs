use rads_lsp::analysis::analyze;
use rads_lsp::diag::{DiagCode, DiagTag, Position, Severity};

#[test]
fn analyze_is_deterministic() {
    let text = "turbo x = 1;\nio.print(x)\nblast foo( {";
    let a = analyze(text);
    let b = analyze(text);
    assert_eq!(a, b);
}

#[test]
fn analyze_empty_text_gives_no_diagnostics() {
    assert_eq!(analyze("").len(), 0);
}

#[test]
fn analyze_degrades_on_unusual_text() {
    // Text the passes cannot interpret yields no diagnostics, not errors.
    assert_eq!(analyze("\u{1F600} \u{00e9}\n\t").len(), 0);
    assert_eq!(rads_lsp::diag::wire_code(DiagCode::PossibleAssignment), None);
}

#[test]
fn syntax_mismatch_both_brackets() {
    // parens 1 open / 0 close, braces 2 open / 1 close: one Error each.
    let ds = analyze("blast foo( { { }");
    assert_eq!(ds.len(), 2);
    assert_eq!(ds[0].severity, Severity::Error);
    assert_eq!(ds[0].code, DiagCode::MismatchedParens);
    assert_eq!(ds[0].message, "Mismatched parentheses: 1 opening, 0 closing");
    assert_eq!(ds[0].range.start, Position { line: 0, character: 0 });
    assert_eq!(ds[0].range.end, Position { line: 0, character: 16 });
    assert_eq!(ds[1].severity, Severity::Error);
    assert_eq!(ds[1].code, DiagCode::MismatchedBraces);
    assert_eq!(ds[1].message, "Mismatched braces: 2 opening, 1 closing");
}

#[test]
fn syntax_paren_counts_are_exact() {
    let ds = analyze("io(((b))");
    assert_eq!(ds.len(), 1);
    assert_eq!(ds[0].code, DiagCode::MismatchedParens);
    assert_eq!(ds[0].message, "Mismatched parentheses: 3 opening, 2 closing");
}

#[test]
fn syntax_function_without_body() {
    let ds = analyze("blast foo");
    assert_eq!(ds.len(), 1);
    assert_eq!(ds[0].code, DiagCode::MissingBody);
    assert_eq!(ds[0].message, "Function definition missing parameters or body");
    assert_eq!(ds[0].range.start, Position { line: 0, character: 0 });
}

#[test]
fn syntax_variable_without_assignment() {
    let ds = analyze("turbo x;");
    assert_eq!(ds.len(), 1);
    assert_eq!(ds[0].code, DiagCode::MissingAssignment);
    assert_eq!(ds[0].message, "Variable declaration missing assignment");
}

#[test]
fn semantic_undefined_function_is_flagged() {
    let ds = analyze("frobnicate()");
    assert_eq!(ds.len(), 1);
    assert_eq!(ds[0].code, DiagCode::UndefinedFunction);
    assert_eq!(ds[0].message, "Undefined function: frobnicate");
    assert_eq!(ds[0].range.start, Position { line: 0, character: 0 });
    assert_eq!(ds[0].range.end, Position { line: 0, character: 10 });
}

#[test]
fn semantic_declared_function_is_not_flagged() {
    let ds = analyze("blast foo(a) {\nfoo(1)\n}");
    assert!(ds.iter().all(|d| d.code != DiagCode::UndefinedFunction));
}

#[test]
fn semantic_stdlib_and_keywords_are_not_flagged() {
    // Module-prefixed names, reserved words and keyword-like calls pass.
    let ds = analyze("ioutil(1)\nif(x) { }\necho(2)\nmathx(90)");
    assert!(ds.iter().all(|d| d.code != DiagCode::UndefinedFunction));
}

#[test]
fn type_possible_assignment_position() {
    let ds = analyze("while x = 5");
    assert_eq!(ds.len(), 1);
    assert_eq!(ds[0].code, DiagCode::PossibleAssignment);
    assert_eq!(ds[0].severity, Severity::Warning);
    assert_eq!(ds[0].range.start, Position { line: 0, character: 8 });
    assert_eq!(ds[0].range.end, Position { line: 0, character: 9 });
    assert_eq!(
        ds[0].message,
        "Possible assignment (=) in expression, did you mean comparison (==)?"
    );
}

#[test]
fn type_unknown_io_member() {
    let ds = analyze("io.put(1)");
    assert!(ds.iter().any(|d| d.code == DiagCode::UnknownIo
        && d.message == "Unknown io function. Did you mean io.print or io.println?"
        && d.range.start.character == 0
        && d.range.end.character == 4));
}

#[test]
fn type_sin_without_radians() {
    let ds = analyze("turbo y = math.sin(30);");
    assert!(ds.iter().any(|d| d.code == DiagCode::SinRadians
        && d.severity == Severity::Warning
        && d.range.start.character == 10
        && d.range.end.character == 18));
    // With a radians conversion on the same line there is no warning.
    let ok = analyze("turbo y = math.sin(math.radians(30));");
    assert!(ok.iter().all(|d| d.code != DiagCode::SinRadians));
}

#[test]
fn style_line_length_boundary() {
    let long: String = "x".repeat(101);
    let ds = analyze(&long);
    let ltl: Vec<_> = ds.iter().filter(|d| d.code == DiagCode::LineTooLong).collect();
    assert_eq!(ltl.len(), 1);
    assert_eq!(ltl[0].severity, Severity::Information);
    assert_eq!(ltl[0].range.start, Position { line: 0, character: 100 });
    assert_eq!(ltl[0].range.end, Position { line: 0, character: 101 });
    assert_eq!(ltl[0].message, "Line too long (101 characters), consider splitting");
    assert_eq!(rads_lsp::diag::wire_code(ltl[0].code), Some("line-too-long".to_string()));

    let exact: String = "x".repeat(100);
    let none = analyze(&exact);
    assert!(none.iter().all(|d| d.code != DiagCode::LineTooLong));
}

#[test]
fn style_nested_if() {
    let ds = analyze("if a if b { }");
    assert!(ds.iter().any(|d| d.code == DiagCode::NestedIf
        && d.range.start.character == 2
        && d.range.end.character == 4
        && d.message == "Nested if statement. Consider using elif or restructuring logic"));
}

#[test]
fn style_odd_indentation() {
    let mut line = " ".repeat(11);
    line.push('x');
    let ds = analyze(&line);
    assert!(ds.iter().any(|d| d.code == DiagCode::OddIndentation
        && d.range.start.character == 0
        && d.range.end.character == 11
        && d.message == "Indentation is 11 spaces, consider using multiples of 2"));
    assert_eq!(
        rads_lsp::diag::wire_code(DiagCode::OddIndentation),
        Some("indentation".to_string())
    );
}

#[test]
fn style_indentation_keys_on_the_leading_run_only() {
    // One leading space, then a word, then eleven more spaces: the
    // leading run is 1, so no indentation diagnostic, however many
    // spaces the rest of the line holds.
    let mut line = " x".to_string();
    line.push_str(&" ".repeat(11));
    let ds = analyze(&line);
    assert!(ds.iter().all(|d| d.code != DiagCode::OddIndentation));
    // An even leading run longer than ten spaces is fine too.
    let mut even = " ".repeat(12);
    even.push('x');
    assert!(analyze(&even).iter().all(|d| d.code != DiagCode::OddIndentation));
}

#[test]
fn performance_print_in_loop_is_tagged_unnecessary() {
    let ds = analyze("loop i { io.print(i) }");
    let hit: Vec<_> = ds.iter().filter(|d| d.code == DiagCode::PrintInLoop).collect();
    assert_eq!(hit.len(), 1);
    assert_eq!(hit[0].severity, Severity::Warning);
    assert_eq!(hit[0].tags, vec![DiagTag::Unnecessary]);
    assert_eq!(hit[0].range.start.character, 9);
}

#[test]
fn performance_array_concat_span() {
    let ds = analyze("turbo z = array.concat(a, b);");
    let hit: Vec<_> = ds.iter().filter(|d| d.code == DiagCode::ArrayConcat).collect();
    assert_eq!(hit.len(), 1);
    assert_eq!(hit[0].range.start.character, 10);
    assert_eq!(hit[0].range.end.character, 28);
    assert_eq!(
        hit[0].message,
        "array.concat() creates new arrays. Consider using array.push() in loop"
    );
}

#[test]
fn pass_order_is_syntax_semantic_type_style_performance() {
    // One line that trips a syntax rule, a semantic rule and a type rule:
    // the diagnostics come out in the fixed pass order.
    let ds = analyze("frobnicate(x = 5");
    assert!(ds.len() >= 3);
    assert_eq!(ds[0].code, DiagCode::MismatchedParens);
    assert_eq!(ds[1].code, DiagCode::UndefinedFunction);
    assert_eq!(ds[2].code, DiagCode::PossibleAssignment);
}
