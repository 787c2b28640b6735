use gac::diff::{
    build_direct_context, build_direct_prompt_context, build_stat_context, build_summarized_prompt_context,
    build_summary_context, choose_strategy, failed_summary, mark_truncated, parse_diff, score_file,
    summary_token_limit, FileDiff, Strategy, TopNScan,
};
use gac::strmap::StrMap;

// ── score_file ─────────────────────────────────────────────────────────────

#[test]
fn score_low_priority_name_returns_zero() {
    assert_eq!(score_file("Cargo.lock"), 0);
    assert_eq!(score_file("package-lock.json"), 0);
    assert_eq!(score_file("go.sum"), 0);
}

#[test]
fn score_source_in_src_is_ninety() {
    assert_eq!(score_file("src/main.rs"), 90);
    assert_eq!(score_file("src/auth/jwt.ts"), 90);
    assert_eq!(score_file("lib/utils.py"), 90);
}

#[test]
fn score_source_in_src_windows_separators() {
    assert_eq!(score_file("src\\main.rs"), 90);
    assert_eq!(score_file("src\\auth\\jwt.ts"), 90);
    assert_eq!(score_file("lib\\utils.py"), 90);
}

#[test]
fn score_source_outside_src_is_seventy_five() {
    assert_eq!(score_file("app/server.go"), 75);
}

#[test]
fn score_test_files_are_forty() {
    assert_eq!(score_file("src/foo_test.rs"), 40);
    assert_eq!(score_file("src/bar.spec.ts"), 40);
    assert_eq!(score_file("__tests__/unit.js"), 40);
}

#[test]
fn score_low_priority_ext_is_twenty() {
    assert_eq!(score_file("config.yaml"), 20);
    assert_eq!(score_file("README.md"), 20);
    assert_eq!(score_file("style.css"), 20);
}

#[test]
fn score_unknown_ext_is_fifty() {
    assert_eq!(score_file("Makefile"), 50);
    assert_eq!(score_file("Dockerfile"), 50);
}

#[test]
fn score_lowercases_only_the_extension() {
    assert_eq!(score_file("SRC/MAIN.RS"), 75);
    assert_eq!(score_file("lib/MAIN.RS"), 90);
    assert_eq!(score_file("CARGO.LOCK"), 20);
    assert_eq!(score_file("Docs/README.MD"), 20);
}

#[test]
fn score_every_path_gets_a_known_priority() {
    for p in ["", "a", ".rs", "src/", "x/y/z.unknown", "tests/a.rs", "a.test.js", "yarn.lock"] {
        let s = score_file(p);
        assert!([0u8, 20, 40, 50, 75, 90].contains(&s), "{p}: {s}");
    }
}

// ── parse_diff ─────────────────────────────────────────────────────────────

#[test]
fn parse_diff_empty_string() {
    assert!(parse_diff("").is_empty());
}

#[test]
fn parse_diff_single_file() {
    let raw = "\
diff --git a/src/main.rs b/src/main.rs
index abc..def 100644
--- a/src/main.rs
+++ b/src/main.rs
@@ -1,3 +1,3 @@
-fn old() {}
+fn new() {}
";
    let files = parse_diff(raw);
    assert_eq!(files.len(), 1);
    assert_eq!(files[0].path, "src/main.rs");
    assert!(files[0].content.contains("fn new() {}"));
}

#[test]
fn parse_diff_multiple_files() {
    let raw = "\
diff --git a/src/a.rs b/src/a.rs
index aaa..bbb 100644
--- a/src/a.rs
+++ b/src/a.rs
@@ -1 +1 @@
-old
+new
diff --git a/src/b.rs b/src/b.rs
index ccc..ddd 100644
--- a/src/b.rs
+++ b/src/b.rs
@@ -1 +1 @@
-old2
+new2
";
    let files = parse_diff(raw);
    assert_eq!(files.len(), 2);
    assert_eq!(files[0].path, "src/a.rs");
    assert_eq!(files[1].path, "src/b.rs");
}

#[test]
fn parse_diff_extracts_path_from_b_prefix() {
    let raw = "\
diff --git a/old_name.rs b/new_name.rs
index aaa..bbb 100644
--- a/old_name.rs
+++ b/new_name.rs
";
    let files = parse_diff(raw);
    assert_eq!(files[0].path, "new_name.rs");
}

#[test]
fn parse_diff_orders_by_priority_keeping_ties_in_place() {
    let raw = "\
diff --git a/README.md b/README.md
+doc
diff --git a/src/x.rs b/src/x.rs
+x
diff --git a/Cargo.lock b/Cargo.lock
+lock
diff --git a/src/y.rs b/src/y.rs
+y
";
    let files = parse_diff(raw);
    let paths: Vec<&str> = files.iter().map(|f| f.path.as_str()).collect();
    assert_eq!(paths, vec!["src/x.rs", "src/y.rs", "README.md", "Cargo.lock"]);
    let scores: Vec<u8> = files.iter().map(|f| f.priority).collect();
    assert_eq!(scores, vec![90, 90, 20, 0]);
    assert_eq!(files[0].content, "diff --git a/src/x.rs b/src/x.rs\n+x");
}

#[test]
fn parse_diff_ignores_text_before_the_first_header() {
    let raw = "garbage line\nmore\ndiff --git a/a.go b/a.go\n+1\n";
    let files = parse_diff(raw);
    assert_eq!(files.len(), 1);
    assert_eq!(files[0].path, "a.go");
    assert_eq!(files[0].priority, 75);
    assert_eq!(files[0].content, "diff --git a/a.go b/a.go\n+1");
}

// ── build_direct_context ───────────────────────────────────────────────────

#[test]
fn build_direct_context_concatenates_content() {
    let files = vec![
        FileDiff { path: "a.rs".into(), priority: 90, content: "diff-a".into() },
        FileDiff { path: "b.rs".into(), priority: 75, content: "diff-b".into() },
    ];
    let ctx = build_direct_context(&files);
    assert_eq!(ctx, "diff-a\ndiff-b\n");
}

#[test]
fn build_direct_context_empty() {
    assert_eq!(build_direct_context(&[]), "");
}

#[test]
fn build_direct_prompt_context_has_stat_then_diff() {
    let files = vec![FileDiff { path: "a.rs".into(), priority: 90, content: "diff-a".into() }];
    assert_eq!(
        build_direct_prompt_context("1 file changed", &files),
        "=== Stat ===\n1 file changed\n=== Diff ===\ndiff-a\n"
    );
}

// ── build_summary_context ──────────────────────────────────────────────────

#[test]
fn build_summary_context_sorted_by_path() {
    let mut summaries: StrMap<String> = StrMap::new();
    summaries.insert("b.rs".into(), "changed b".into());
    summaries.insert("a.rs".into(), "changed a".into());
    let ctx = build_summary_context(&summaries);
    let a_pos = ctx.find("a.rs").unwrap();
    let b_pos = ctx.find("b.rs").unwrap();
    assert!(a_pos < b_pos, "a.rs should appear before b.rs");
}

#[test]
fn build_summary_context_header() {
    let summaries: StrMap<String> = StrMap::new();
    let ctx = build_summary_context(&summaries);
    assert!(ctx.starts_with("Per-file change summaries:"));
}

#[test]
fn build_summary_context_exact_layout() {
    let mut summaries: StrMap<String> = StrMap::new();
    summaries.insert("b.rs".into(), "changed b".into());
    summaries.insert("a.rs".into(), "changed a".into());
    assert_eq!(
        build_summary_context(&summaries),
        "Per-file change summaries:\n\n• a.rs:\n  changed a\n\n• b.rs:\n  changed b\n\n"
    );
}

#[test]
fn build_summarized_prompt_context_layout() {
    assert_eq!(build_summarized_prompt_context("st", "sum"), "=== Stat ===\nst\n\nsum");
}

// ── build_stat_context ─────────────────────────────────────────────────────

#[test]
fn build_stat_context_includes_top_n_files() {
    let files = vec![
        FileDiff { path: "a.rs".into(), priority: 90, content: "diff-a".into() },
        FileDiff { path: "b.rs".into(), priority: 75, content: "diff-b".into() },
        FileDiff { path: "c.rs".into(), priority: 50, content: "diff-c".into() },
    ];
    let ctx = build_stat_context("stat output", &files, 2);
    assert!(ctx.contains("diff-a"));
    assert!(ctx.contains("diff-b"));
    assert!(!ctx.contains("diff-c"));
    assert!(ctx.contains("1 lower-priority file(s) omitted"));
}

#[test]
fn build_stat_context_no_skipped_when_top_n_covers_all() {
    let files = vec![FileDiff { path: "a.rs".into(), priority: 90, content: "diff-a".into() }];
    let ctx = build_stat_context("stat", &files, 5);
    assert!(!ctx.contains("omitted"));
}

#[test]
fn build_stat_context_exact_layout() {
    let files = vec![
        FileDiff { path: "a.rs".into(), priority: 90, content: "diff-a".into() },
        FileDiff { path: "b.rs".into(), priority: 75, content: "diff-b".into() },
    ];
    assert_eq!(
        build_stat_context("S", &files, 1),
        "=== Stat (all changed files) ===\nS\n\n=== Full diff (highest-priority files only) ===\ndiff-a\n\n[1 lower-priority file(s) omitted — visible in --stat above]\n"
    );
}

// ── Strategy ───────────────────────────────────────────────────────────────

#[test]
fn strategy_display() {
    assert_eq!(Strategy::Direct.to_string(), "direct");
    assert_eq!(Strategy::Summarize.to_string(), "per-file summarize");
    assert_eq!(Strategy::StatOnly { top_n: 3 }.to_string(), "stat + top-3 files");
}

#[test]
fn strategy_display_multi_digit() {
    assert_eq!(Strategy::StatOnly { top_n: 120 }.to_string(), "stat + top-120 files");
}

#[test]
fn choose_strategy_follows_size() {
    assert_eq!(choose_strategy(100, 4096, 50), Some(Strategy::Direct));
    assert_eq!(choose_strategy(4096, 4096, 19), Some(Strategy::Summarize));
    assert_eq!(choose_strategy(5000, 4096, 3), Some(Strategy::Summarize));
    assert_eq!(choose_strategy(5000, 4096, 20), None);
    assert_eq!(choose_strategy(5000, 4096, 21), None);
}

#[test]
fn top_n_scan_counts_leading_files_that_fit() {
    let mut scan = TopNScan::new(100);
    for t in [30usize, 50, 40, 10] {
        scan.add_file(t);
    }
    assert_eq!(scan.top_n, 2);
    assert_eq!(scan.remaining, 20);
    assert!(scan.stopped);
    assert_eq!(scan.strategy(), Strategy::StatOnly { top_n: 2 });
}

#[test]
fn top_n_scan_gives_at_least_one_file() {
    let mut scan = TopNScan::new(10);
    scan.add_file(11);
    assert_eq!(scan.top_n, 0);
    assert_eq!(scan.strategy(), Strategy::StatOnly { top_n: 1 });
}

// ── Summaries ──────────────────────────────────────────────────────────────

#[test]
fn summary_limit_is_half_the_context() {
    assert_eq!(summary_token_limit(100, 4096), None);
    assert_eq!(summary_token_limit(2048, 4096), None);
    assert_eq!(summary_token_limit(2049, 4096), Some(2048));
    assert_eq!(summary_token_limit(1, 1), Some(0));
}

#[test]
fn truncation_and_failure_markers() {
    assert_eq!(mark_truncated("abc"), "abc\n[... truncated ...]");
    assert_eq!(failed_summary(), "(summary failed — see stat for details)");
}
