use gac::validate::{
    next_step, try_fix_commit_message, validate_conventional_commit, CommitMessageError, NextStep,
    MAX_VALIDATION_RETRIES,
};

#[test]
fn test_valid_conventional_commit() {
    assert!(validate_conventional_commit("feat(auth): add JWT support").is_ok());
    assert!(validate_conventional_commit("fix: resolve memory leak").is_ok());
    assert!(validate_conventional_commit("docs(readme): update installation instructions").is_ok());
}

#[test]
fn test_invalid_type() {
    assert!(validate_conventional_commit("update(auth): add JWT support").is_err());
    assert!(validate_conventional_commit("add: new feature").is_err());
}

#[test]
fn test_missing_separator() {
    assert!(validate_conventional_commit("feat(auth) add JWT support").is_err());
}

#[test]
fn test_trailing_period() {
    assert!(validate_conventional_commit("feat: add feature.").is_err());
}

#[test]
fn test_empty_message() {
    assert!(validate_conventional_commit("").is_err());
    assert!(validate_conventional_commit("   ").is_err());
}

#[test]
fn test_try_fix_capitalization() {
    let fixed = try_fix_commit_message("feat: Add new feature");
    assert_eq!(fixed, "feat: add new feature");
}

#[test]
fn test_try_fix_trailing_period() {
    let fixed = try_fix_commit_message("fix: resolve bug.");
    assert_eq!(fixed, "fix: resolve bug");
}

#[test]
fn test_try_fix_both() {
    let fixed = try_fix_commit_message("feat(auth): Add JWT support.");
    assert_eq!(fixed, "feat(auth): add JWT support");
}

#[test]
fn validation_errors_name_the_first_failed_check() {
    assert_eq!(validate_conventional_commit(" \n\t "), Err(CommitMessageError::Empty));
    assert_eq!(
        validate_conventional_commit("feat(auth) add JWT support"),
        Err(CommitMessageError::MissingSeparator)
    );
    assert_eq!(
        validate_conventional_commit("update(auth): add JWT support"),
        Err(CommitMessageError::InvalidType("update(auth)".to_string()))
    );
    assert_eq!(validate_conventional_commit("feat: add feature."), Err(CommitMessageError::TrailingPeriod));
    let long = format!("feat: {}", "a".repeat(121));
    assert_eq!(validate_conventional_commit(&long), Err(CommitMessageError::SubjectTooLong(121)));
    assert_eq!(
        validate_conventional_commit("feat: \nbody"),
        Err(CommitMessageError::Malformed("feat: ".to_string()))
    );
}

#[test]
fn validation_reads_only_the_first_line() {
    assert!(validate_conventional_commit("  chore(deps): bump regex\n\nBody text.\n").is_ok());
    let subject = "a".repeat(120);
    assert!(validate_conventional_commit(&format!("ci: {subject}")).is_ok());
}

#[test]
fn validation_error_messages() {
    assert_eq!(CommitMessageError::Empty.message(), "Empty commit message");
    assert_eq!(
        CommitMessageError::MissingSeparator.message(),
        "Missing ': ' separator. Expected format: type(scope): subject"
    );
    assert_eq!(
        CommitMessageError::InvalidType("add".to_string()).message(),
        "Invalid type 'add'. Allowed: feat, fix, docs, style, refactor, perf, test, build, ci, chore, revert"
    );
    assert_eq!(CommitMessageError::SubjectTooLong(130).message(), "Subject line too long (130 chars, max 120)");
    assert_eq!(
        CommitMessageError::Malformed("x: ".to_string()).message(),
        "Does not match conventional commit format. Got: 'x: '"
    );
    assert_eq!(CommitMessageError::TrailingPeriod.message(), "Subject line should not end with a period");
}

#[test]
fn try_fix_lowercases_type_and_keeps_body() {
    assert_eq!(try_fix_commit_message("  Feat(Auth): Add X.\nbody line\n"), "feat(auth): add X\nbody line");
}

#[test]
fn try_fix_leaves_unfixable_messages_unchanged() {
    assert_eq!(try_fix_commit_message("  hello world  "), "  hello world  ");
    assert_eq!(try_fix_commit_message("  update: stuff "), "  update: stuff ");
    assert_eq!(try_fix_commit_message("update: Add thing."), "update: Add thing.");
}

#[test]
fn next_step_accepts_retries_then_settles() {
    assert!(matches!(next_step("fix: a bug", 0), NextStep::Accept));
    assert!(matches!(
        next_step("fix: a bug.", 0),
        NextStep::Retry(CommitMessageError::TrailingPeriod)
    ));
    match next_step("fix: A bug.", MAX_VALIDATION_RETRIES) {
        NextStep::Settle { message, repaired, reason } => {
            assert_eq!(message, "fix: a bug");
            assert!(repaired);
            assert_eq!(reason, CommitMessageError::TrailingPeriod);
        }
        other => panic!("unexpected {other:?}"),
    }
    match next_step("nonsense", MAX_VALIDATION_RETRIES) {
        NextStep::Settle { message, repaired, reason } => {
            assert_eq!(message, "nonsense");
            assert!(!repaired);
            assert_eq!(reason, CommitMessageError::MissingSeparator);
        }
        other => panic!("unexpected {other:?}"),
    }
}
