use gac::diff::Strategy;
use gac::report::{join_strings, scope_line, skipped_files, staging_line, strategy_line, strategy_title};

#[test]
fn staging_line_lists_staged_and_filtered_files() {
    let staged = vec!["a.rs".to_string(), "Cargo.lock".to_string()];
    assert_eq!(staging_line("2", &staged, &[]), "✔️ 2 files (a.rs, Cargo.lock) staged");
    assert_eq!(
        staging_line("2", &staged, &["Cargo.lock".to_string()]),
        "✔️ 2 files (a.rs, Cargo.lock) staged (Cargo.lock filtered)"
    );
}

#[test]
fn scope_line_variants() {
    let m = vec!["api".to_string(), "auth".to_string()];
    let u = vec!["docs".to_string()];
    assert_eq!(scope_line(true, &m, &u), "✔️ Dedected scopes: api, auth");
    assert_eq!(scope_line(true, &[], &u), "⚠️ No scopes auto-matched. Available scopes: docs");
    assert_eq!(scope_line(false, &m, &u), "⚠️ Scopes not defined");
}

#[test]
fn strategy_titles_use_title_case() {
    assert_eq!(strategy_title(&Strategy::Direct), "Direct");
    assert_eq!(strategy_title(&Strategy::Summarize), "Per File Summarize");
    assert_eq!(
        strategy_line("Direct", "3", "120 char(s)", "40 token(s)"),
        "✔️ Direct strategy selected for 3 files with 120 char(s) / 40 token(s)"
    );
}

#[test]
fn joining_and_skipping() {
    assert_eq!(join_strings(&[], ", "), "");
    assert_eq!(join_strings(&["x".to_string()], ", "), "x");
    assert_eq!(join_strings(&["x".to_string(), "y".to_string()], "--"), "x--y");
    assert_eq!(skipped_files(25, 3), 22);
    assert_eq!(skipped_files(2, 3), 0);
}
