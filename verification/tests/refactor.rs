use rads_lsp::diag::{Position, Range};
use rads_lsp::refactor::{RefactorEngine, RefactorError, SymbolKind};

fn pos(line: usize, character: usize) -> Position {
    Position { line, character }
}

#[test]
fn rename_replaces_every_occurrence() {
    let mut e = RefactorEngine::new();
    e.register_document("file:///a.rads", "turbo x = 1;\nio.print(x);");
    for &p in &[pos(0, 6), pos(1, 9)] {
        let edits = e.rename_symbol("file:///a.rads", p, "y").unwrap();
        assert_eq!(edits.len(), 2);
        assert_eq!(edits[0].range.start, pos(0, 6));
        assert_eq!(edits[0].range.end, pos(0, 7));
        assert_eq!(edits[0].new_text, "y");
        assert_eq!(edits[1].range.start, pos(1, 9));
        assert_eq!(edits[1].range.end, pos(1, 10));
        assert_eq!(edits[1].new_text, "y");
    }
}

#[test]
fn rename_is_word_boundary_matched() {
    let mut e = RefactorEngine::new();
    e.register_document("file:///a.rads", "turbo x = 1;\nturbo xx = x;");
    let edits = e.rename_symbol("file:///a.rads", pos(0, 6), "y").unwrap();
    // `xx` is not an occurrence of `x`.
    assert_eq!(edits.len(), 2);
    assert_eq!(edits[0].range.start, pos(0, 6));
    assert_eq!(edits[1].range.start, pos(1, 11));
}

#[test]
fn rename_on_blank_line_reports_no_symbol() {
    let mut e = RefactorEngine::new();
    e.register_document("file:///a.rads", "turbo x = 1;\n\nio.print(x);");
    assert_eq!(
        e.rename_symbol("file:///a.rads", pos(1, 0), "y"),
        Err(RefactorError::NoSymbolAtPosition)
    );
}

#[test]
fn rename_on_punctuation_only_column_reports_no_symbol() {
    let mut e = RefactorEngine::new();
    e.register_document("file:///a.rads", "...\nturbo x = 1;");
    assert_eq!(
        e.rename_symbol("file:///a.rads", pos(0, 1), "y"),
        Err(RefactorError::NoSymbolAtPosition)
    );
}

#[test]
fn rename_unknown_document_reports_not_found() {
    let e = RefactorEngine::new();
    assert_eq!(
        e.rename_symbol("file:///missing.rads", pos(0, 0), "y"),
        Err(RefactorError::NotFound)
    );
}

#[test]
fn rename_past_last_line_reports_not_found() {
    let mut e = RefactorEngine::new();
    e.register_document("file:///a.rads", "turbo x = 1;");
    assert_eq!(e.rename_symbol("file:///a.rads", pos(7, 0), "y"), Err(RefactorError::NotFound));
}

#[test]
fn symbols_list_functions_and_variables() {
    let mut e = RefactorEngine::new();
    e.register_document("file:///a.rads", "blast foo(a) {\nturbo x = 1;\n}\nturbo y;");
    let ss = e.get_all_symbols("file:///a.rads").unwrap();
    // `turbo y;` has no assignment and yields no symbol; each symbol is
    // positioned at its name, just after the keyword.
    assert_eq!(ss.len(), 2);
    assert_eq!(ss[0].name, "foo");
    assert_eq!(ss[0].kind, SymbolKind::Function);
    assert_eq!(ss[0].position, pos(0, 6));
    assert_eq!(ss[1].name, "x");
    assert_eq!(ss[1].kind, SymbolKind::Variable);
    assert_eq!(ss[1].position, pos(1, 6));
}

#[test]
fn symbols_include_indented_variable_declarations() {
    let mut e = RefactorEngine::new();
    e.register_document("file:///a.rads", "blast f() {\n    turbo z = 3;\n}");
    let ss = e.get_all_symbols("file:///a.rads").unwrap();
    assert_eq!(ss.len(), 2);
    assert_eq!(ss[1].name, "z");
    assert_eq!(ss[1].kind, SymbolKind::Variable);
    assert_eq!(ss[1].position, pos(1, 10));
}

#[test]
fn symbols_unknown_document_reports_not_found() {
    let e = RefactorEngine::new();
    assert_eq!(e.get_all_symbols("file:///missing.rads"), Err(RefactorError::NotFound));
}

#[test]
fn extract_function_rejects_range_past_document() {
    let mut e = RefactorEngine::new();
    e.register_document("file:///a.rads", "turbo x = 1;\nio.print(x);");
    let range = Range { start: pos(0, 0), end: pos(5, 0) };
    assert_eq!(
        e.extract_function("file:///a.rads", range, "helper"),
        Err(RefactorError::InvalidRange)
    );
}

#[test]
fn extract_function_infers_parameters_from_indented_declarations() {
    let mut e = RefactorEngine::new();
    e.register_document("file:///a.rads", "blast main() {\n    turbo b = 2;\n}");
    let range = Range { start: pos(1, 0), end: pos(1, 0) };
    let (_, fun_text) = e.extract_function("file:///a.rads", range, "helper").unwrap();
    assert_eq!(fun_text, "blast helper(b) {\n    turbo b = 2;\n}");
}

#[test]
fn extract_function_builds_definition_and_call() {
    let mut e = RefactorEngine::new();
    e.register_document("file:///a.rads", "blast main() {\nturbo a = 1;\nio.print(a);\n}");
    let range = Range { start: pos(1, 0), end: pos(2, 0) };
    let (edits, fun_text) = e.extract_function("file:///a.rads", range, "helper").unwrap();
    assert_eq!(fun_text, "blast helper(a) {\nturbo a = 1;\nio.print(a);\n}");
    assert_eq!(edits.len(), 2);
    // The definition goes above the nearest preceding function declaration.
    assert_eq!(edits[0].range.start, pos(0, 0));
    assert_eq!(edits[0].range.end, pos(0, 0));
    assert_eq!(edits[0].new_text, format!("{}\n", fun_text));
    // The selection is replaced by a call with the inferred arguments.
    assert_eq!(edits[1].range.start, pos(1, 0));
    assert_eq!(edits[1].range.end, pos(2, 12));
    assert_eq!(edits[1].new_text, "helper(a);");
}

#[test]
fn extract_function_unknown_document_reports_not_found() {
    let e = RefactorEngine::new();
    let range = Range { start: pos(0, 0), end: pos(0, 0) };
    assert_eq!(
        e.extract_function("file:///missing.rads", range, "helper"),
        Err(RefactorError::NotFound)
    );
}
