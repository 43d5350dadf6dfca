use rads_lsp::diag::DiagCode;
use rads_lsp::engine::{DiagnosticEngine, EngineError};

#[test]
fn diagnostics_idempotent_without_changes() {
    let mut e = DiagnosticEngine::new();
    e.register_document("file:///a.rads", "blast foo\nturbo x;");
    let first = e.get_diagnostics("file:///a.rads").unwrap();
    let second = e.get_diagnostics("file:///a.rads").unwrap();
    assert_eq!(first, second);
    assert_eq!(first.len(), 2);
}

#[test]
fn register_invalidates_cache() {
    let mut e = DiagnosticEngine::new();
    e.register_document("file:///a.rads", "turbo x = 1;");
    let first = e.get_diagnostics("file:///a.rads").unwrap();
    assert_eq!(first.len(), 0);
    // One character changes the text; the next read must reflect it.
    e.register_document("file:///a.rads", "turbo x ~ 1;");
    let second = e.get_diagnostics("file:///a.rads").unwrap();
    assert_eq!(second.len(), 1);
    assert_eq!(second[0].code, DiagCode::MissingAssignment);
}

#[test]
fn invalidate_recomputes_same_result() {
    let mut e = DiagnosticEngine::new();
    e.register_document("file:///a.rads", "blast foo");
    let first = e.get_diagnostics("file:///a.rads").unwrap();
    e.invalidate("file:///a.rads");
    let second = e.get_diagnostics("file:///a.rads").unwrap();
    assert_eq!(first, second);
}

#[test]
fn unknown_document_reports_not_found() {
    let mut e = DiagnosticEngine::new();
    assert_eq!(e.get_diagnostics("file:///missing.rads"), Err(EngineError::NotFound));
}

#[test]
fn unregister_makes_reads_fail() {
    let mut e = DiagnosticEngine::new();
    e.register_document("file:///a.rads", "turbo x = 1;");
    assert!(e.get_diagnostics("file:///a.rads").is_ok());
    e.unregister_document("file:///a.rads");
    assert_eq!(e.get_diagnostics("file:///a.rads"), Err(EngineError::NotFound));
}

#[test]
fn documents_are_independent() {
    let mut e = DiagnosticEngine::new();
    e.register_document("file:///a.rads", "blast foo");
    e.register_document("file:///b.rads", "turbo x = 1;");
    assert_eq!(e.get_diagnostics("file:///a.rads").unwrap().len(), 1);
    assert_eq!(e.get_diagnostics("file:///b.rads").unwrap().len(), 0);
    e.unregister_document("file:///a.rads");
    assert_eq!(e.get_diagnostics("file:///b.rads").unwrap().len(), 0);
}
