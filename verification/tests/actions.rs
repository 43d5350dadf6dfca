use rads_lsp::actions::{
    fix_all_errors, format_document, organize_imports, ActionKind, CodeActionProvider,
};
use rads_lsp::diag::{DiagCode, Diagnostic, Position, Range, Severity};

fn pos(line: usize, character: usize) -> Position {
    Position { line, character }
}

fn range(sl: usize, sc: usize, el: usize, ec: usize) -> Range {
    Range { start: pos(sl, sc), end: pos(el, ec) }
}

fn possible_assignment_diag(r: Range) -> Diagnostic {
    Diagnostic {
        range: r,
        severity: Severity::Warning,
        code: DiagCode::PossibleAssignment,
        message: "Possible assignment (=) in expression, did you mean comparison (==)?"
            .to_string(),
        tags: vec![],
    }
}

#[test]
fn quick_fix_replaces_assignment_with_comparison() {
    let p = CodeActionProvider::new();
    let d = possible_assignment_diag(range(0, 5, 0, 6));
    let fixes = p.get_quick_fixes("file:///a.rads", range(0, 0, 0, 12), Some(&vec![d.clone()]));
    assert_eq!(fixes.len(), 1);
    let a = &fixes[0];
    assert_eq!(a.title, "Replace = with ==");
    assert_eq!(a.kind, ActionKind::QuickFix);
    assert!(a.is_preferred);
    assert_eq!(a.diagnostics, vec![d]);
    let edit = a.edit.as_ref().unwrap();
    assert_eq!(edit.changes.len(), 1);
    assert_eq!(edit.changes[0].uri, "file:///a.rads");
    assert_eq!(edit.changes[0].edits.len(), 1);
    assert_eq!(edit.changes[0].edits[0].range, range(0, 5, 0, 6));
    assert_eq!(edit.changes[0].edits[0].new_text, "==");
}

#[test]
fn quick_fixes_only_for_overlapping_diagnostics() {
    let p = CodeActionProvider::new();
    let d = possible_assignment_diag(range(5, 0, 5, 1));
    let fixes = p.get_quick_fixes("file:///a.rads", range(0, 0, 1, 0), Some(&vec![d]));
    assert_eq!(fixes.len(), 0);
}

#[test]
fn quick_fix_unknown_io() {
    let p = CodeActionProvider::new();
    let d = Diagnostic {
        range: range(2, 0, 2, 4),
        severity: Severity::Error,
        code: DiagCode::UnknownIo,
        message: "Unknown io function. Did you mean io.print or io.println?".to_string(),
        tags: vec![],
    };
    let fixes = p.get_quick_fixes("file:///a.rads", range(2, 0, 2, 10), Some(&vec![d]));
    assert_eq!(fixes.len(), 1);
    assert_eq!(fixes[0].title, "Change to io.print");
    assert!(fixes[0].is_preferred);
    let edit = fixes[0].edit.as_ref().unwrap();
    assert_eq!(edit.changes[0].edits[0].new_text, "io.print");
}

#[test]
fn quick_fix_sin_radians_offers_two_alternatives() {
    let p = CodeActionProvider::new();
    let d = Diagnostic {
        range: range(0, 10, 0, 18),
        severity: Severity::Warning,
        code: DiagCode::SinRadians,
        message: "math.sin() expects radians. Consider wrapping with math.radians()".to_string(),
        tags: vec![],
    };
    let fixes = p.get_quick_fixes("file:///a.rads", range(0, 0, 0, 30), Some(&vec![d]));
    assert_eq!(fixes.len(), 2);
    assert_eq!(fixes[0].title, "Wrap in math.radians()");
    assert!(fixes[0].is_preferred);
    assert_eq!(
        fixes[0].edit.as_ref().unwrap().changes[0].edits[0].new_text,
        "math.radians("
    );
    assert_eq!(fixes[1].title, "Convert to degrees manually");
    assert!(!fixes[1].is_preferred);
    assert_eq!(
        fixes[1].edit.as_ref().unwrap().changes[0].edits[0].new_text,
        "math.sin(deg * (3.141592653589793 / 180))"
    );
}

#[test]
fn quick_fix_missing_return_inserts_statement() {
    let p = CodeActionProvider::new();
    let d = Diagnostic {
        range: range(3, 0, 3, 1),
        severity: Severity::Warning,
        code: DiagCode::MissingReturn,
        message: "Missing return statement".to_string(),
        tags: vec![],
    };
    let fixes = p.get_quick_fixes("file:///a.rads", range(3, 0, 3, 5), Some(&vec![d]));
    assert_eq!(fixes.len(), 1);
    assert_eq!(fixes[0].title, "Add return statement");
    assert!(fixes[0].is_preferred);
    assert_eq!(
        fixes[0].edit.as_ref().unwrap().changes[0].edits[0].new_text,
        "\n    return null;"
    );
}

#[test]
fn quick_fix_unused_variable_offers_two_unpreferred_choices() {
    let p = CodeActionProvider::new();
    let d = Diagnostic {
        range: range(4, 6, 4, 7),
        severity: Severity::Warning,
        code: DiagCode::UnusedVariable,
        message: "Unused variable".to_string(),
        tags: vec![],
    };
    let fixes = p.get_quick_fixes("file:///a.rads", range(4, 0, 4, 12), Some(&vec![d]));
    assert_eq!(fixes.len(), 2);
    assert_eq!(fixes[0].title, "Remove unused variable");
    assert!(!fixes[0].is_preferred);
    // Deleting the declaration removes the whole line.
    assert_eq!(fixes[0].edit.as_ref().unwrap().changes[0].edits[0].range, range(4, 0, 5, 0));
    assert_eq!(fixes[0].edit.as_ref().unwrap().changes[0].edits[0].new_text, "");
    assert_eq!(fixes[1].title, "Prefix with _ to indicate intentionally unused");
    assert!(!fixes[1].is_preferred);
    // The underscore is inserted at the variable's position.
    assert_eq!(fixes[1].edit.as_ref().unwrap().changes[0].edits[0].range, range(4, 6, 4, 6));
    assert_eq!(fixes[1].edit.as_ref().unwrap().changes[0].edits[0].new_text, "_");
}

#[test]
fn refactorings_are_always_offered() {
    let p = CodeActionProvider::new();
    let acts = p.get_refactorings("file:///a.rads", range(0, 0, 1, 0));
    assert_eq!(acts.len(), 7);
    let titles: Vec<&str> = acts.iter().map(|a| a.title.as_str()).collect();
    assert_eq!(
        titles,
        vec![
            "Extract Function",
            "Extract Variable",
            "Inline Function",
            "Add Async to Function",
            "Add Return Type",
            "Simplify Expression",
            "Add Error Handling",
        ]
    );
    for a in &acts {
        assert_eq!(a.kind, ActionKind::Refactor);
        assert!(a.edit.is_none());
        assert!(a.command.is_some());
    }
    assert_eq!(acts[0].command.as_ref().unwrap().command, "rads.extractFunction");
}

#[test]
fn code_actions_concatenate_fixes_and_refactorings() {
    let p = CodeActionProvider::new();
    let d = possible_assignment_diag(range(0, 5, 0, 6));
    let acts = p.get_code_actions("file:///a.rads", range(0, 0, 0, 12), Some(vec![d]));
    assert_eq!(acts.len(), 8);
    assert_eq!(acts[0].kind, ActionKind::QuickFix);
    assert_eq!(acts[1].title, "Extract Function");

    let none = p.get_code_actions("file:///a.rads", range(0, 0, 0, 12), None);
    assert_eq!(none.len(), 7);
}

#[test]
fn fix_all_applies_only_single_choice_fixes() {
    let pa = possible_assignment_diag(range(0, 5, 0, 6));
    let io = Diagnostic {
        range: range(1, 0, 1, 4),
        severity: Severity::Error,
        code: DiagCode::UnknownIo,
        message: "Unknown io function. Did you mean io.print or io.println?".to_string(),
        tags: vec![],
    };
    let sin = Diagnostic {
        range: range(2, 0, 2, 8),
        severity: Severity::Warning,
        code: DiagCode::SinRadians,
        message: "math.sin() expects radians. Consider wrapping with math.radians()".to_string(),
        tags: vec![],
    };
    let w = fix_all_errors("file:///a.rads", "", &vec![pa, io, sin]).unwrap();
    assert_eq!(w.changes.len(), 1);
    assert_eq!(w.changes[0].edits.len(), 2);
    assert_eq!(w.changes[0].edits[0].new_text, "==");
    assert_eq!(w.changes[0].edits[0].range, range(0, 5, 0, 6));
    assert_eq!(w.changes[0].edits[1].new_text, "io.print");
}

#[test]
fn organize_imports_sorts_and_deduplicates() {
    let text = "turbo x = 1;\nimport b;\nimport a;\nimport a;\nio.print(x);";
    let w = organize_imports("file:///a.rads", text);
    assert_eq!(w.changes.len(), 1);
    assert_eq!(w.changes[0].uri, "file:///a.rads");
    assert_eq!(w.changes[0].edits.len(), 1);
    let e = &w.changes[0].edits[0];
    assert_eq!(e.range, range(0, 0, 5, 0));
    assert_eq!(e.new_text, "import a;\nimport b;\n\nturbo x = 1;\nio.print(x);");
}

#[test]
fn format_document_indents_by_block_depth() {
    let text = "blast f() {\nturbo x = 1;\nif a {\nio.print(x);\n}\n}";
    let w = format_document("file:///a.rads", text);
    let e = &w.changes[0].edits[0];
    assert_eq!(e.range, range(0, 0, 6, 0));
    assert_eq!(
        e.new_text,
        "blast f() {\n  turbo x = 1;\n  if a {\n    io.print(x);\n  }\n}"
    );
}

#[test]
fn fix_all_returns_none_without_applicable_fixes() {
    assert!(fix_all_errors("file:///a.rads", "", &vec![]).is_none());
    let sin = Diagnostic {
        range: range(2, 0, 2, 8),
        severity: Severity::Warning,
        code: DiagCode::SinRadians,
        message: "math.sin() expects radians. Consider wrapping with math.radians()".to_string(),
        tags: vec![],
    };
    assert!(fix_all_errors("file:///a.rads", "", &vec![sin]).is_none());
}
