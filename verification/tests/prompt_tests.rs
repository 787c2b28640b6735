use gac::prompt::{
    build_commit_prompt, build_file_summary_prompt, build_retry_prompt, commit_system, summary_system,
    COMMIT_SYSTEM_HEAD, COMMIT_SYSTEM_TAIL, MANY_SCOPES_HEAD, NO_SCOPE_RULE, SUMMARY_SYSTEM,
};

#[test]
fn commit_prompt_wraps_the_context() {
    let p = build_commit_prompt("CTX", &[]);
    assert_eq!(
        p.user,
        "Please analyze the following diff and generate commit message based on the changes:\n\nCTX"
    );
    assert_eq!(p.system, format!("{COMMIT_SYSTEM_HEAD}\n{NO_SCOPE_RULE}\n{COMMIT_SYSTEM_TAIL}"));
}

#[test]
fn commit_system_names_a_single_scope() {
    let s = commit_system(&["api"]);
    assert!(s.starts_with(COMMIT_SYSTEM_HEAD));
    assert!(s.ends_with(COMMIT_SYSTEM_TAIL));
    assert!(s.contains("`api`"));
    assert!(s.contains("<type>(api): <subject>"));
}

#[test]
fn commit_system_lists_several_scopes() {
    let s = commit_system(&["api", "auth"]);
    assert!(s.contains(&format!("{MANY_SCOPES_HEAD}- api\n- auth\n")));
}

#[test]
fn summary_prompt_layout() {
    let p = build_file_summary_prompt("src/a.rs", "+x");
    assert_eq!(p.system, SUMMARY_SYSTEM);
    assert_eq!(summary_system(), SUMMARY_SYSTEM);
    assert_eq!(p.user, "Summarize the changes in `src/a.rs`:\n\n+x");
}

#[test]
fn retry_prompt_layout() {
    let p = build_retry_prompt("CTX", &[], "bad", "Empty commit message");
    assert_eq!(p.system, commit_system(&[]));
    assert_eq!(
        p.user,
        "Your previous response did not conform to the required format.\nError: Empty commit message\nYour response was:\nbad\n\nPlease try again and output ONLY a valid conventional commit message.\n\nDiff context:\nCTX"
    );
}
