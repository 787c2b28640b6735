use gac::config::ScopeEntry;
use gac::git::{build_excludes, check_staged, detect_scopes, excluded_files, output_lines, StagedError};
use gac::strmap::StrMap;

fn scopes() -> StrMap<ScopeEntry> {
    let mut m = StrMap::new();
    m.insert("release".to_string(), ScopeEntry::PathsOnly(vec![]));
    m.insert("auth".to_string(), ScopeEntry::Full { paths: Some(vec!["src/auth/**".into()]) });
    m.insert("api".to_string(), ScopeEntry::PathsOnly(vec!["[".into(), "src/api/**".into()]));
    m.insert("docs".to_string(), ScopeEntry::Full { paths: None });
    m
}

#[test]
fn detect_scopes_splits_matched_and_unmatched_in_name_order() {
    let files = vec!["src/api/users.rs".to_string(), "README.md".to_string()];
    let m = detect_scopes(&files, &scopes());
    assert_eq!(m.matched, vec!["api"]);
    assert_eq!(m.unmatched, vec!["auth", "docs", "release"]);
    assert_eq!(m.matched.len() + m.unmatched.len(), 4);
    assert_eq!(m.best_candidates(), vec!["api"]);
}

#[test]
fn best_candidates_fall_back_to_unmatched() {
    let m = detect_scopes(&["other.txt".to_string()], &scopes());
    assert!(m.matched.is_empty());
    assert_eq!(m.best_candidates(), vec!["api", "auth", "docs", "release"]);
}

#[test]
fn excludes_and_output_lines() {
    assert_eq!(build_excludes(&["*.lock".into(), "dist/**".into()]), vec![":(exclude)*.lock", ":(exclude)dist/**"]);
    assert_eq!(output_lines("a.rs\r\nb.rs\n"), vec!["a.rs", "b.rs"]);
    assert!(output_lines("").is_empty());
}

#[test]
fn excluded_files_keeps_order() {
    let all = vec!["a".to_string(), "Cargo.lock".to_string(), "b".to_string(), "x.lock".to_string()];
    let kept = vec!["b".to_string(), "a".to_string()];
    assert_eq!(excluded_files(&all, &kept), vec!["Cargo.lock", "x.lock"]);
}

#[test]
fn check_staged_reports_why_nothing_is_there() {
    assert_eq!(check_staged(" \n", "x"), Err(StagedError::NothingStaged));
    assert_eq!(check_staged("1 file", "\n\t"), Err(StagedError::OnlyFilteredFiles));
    assert_eq!(check_staged("1 file", "diff"), Ok(()));
    assert_eq!(StagedError::NothingStaged.message(), "No staged changes found. Run `git add` first.");
    assert_eq!(StagedError::OnlyFilteredFiles.message(), "Staged changes are only in filtered files.");
}
