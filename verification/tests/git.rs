use shipgate::git::{
    all_hunks_are_pure_renames, anchor_from_digest, anchor_of, changed_files, commit_hunks,
    current_branch, default_remote, diff_ignoring_whitespace_empty, grep_symbol, marked_generated,
    merge_base, parse_diff, repo_root, rev_parse, text_to_anchor, Query,
};

const DIFF: &str = "\
diff --git a/src/sync.rs b/src/sync.rs
index 1111111..2222222 100644
--- a/src/sync.rs
+++ b/src/sync.rs
@@ -88,6 +88,9 @@ impl Syncer {
         let mut tries = 0;
+        if self.retry_count == 0 {
+            return Err(Transient);
+        }
         loop {
@@ -200,2 +203,3 @@ impl Syncer {
     fn flush(&self) {
+        self.buffer.clear();
     }
diff --git a/src/db.rs b/src/db.rs
--- a/src/db.rs
+++ b/src/db.rs
@@ -10,1 +10,2 @@
+pub const TIMEOUT: u64 = 5000;
";

#[test]
fn parses_hunks_per_file() {
    let hunks = parse_diff(DIFF);
    assert_eq!(hunks.len(), 3);
    assert_eq!(hunks[0].file, "src/sync.rs");
    assert_eq!(hunks[2].file, "src/db.rs");
    assert_eq!(hunks[0].added.len(), 3);
    assert_eq!(hunks[2].added, vec!["pub const TIMEOUT: u64 = 5000;"]);
}

#[test]
fn plus_plus_plus_header_is_not_an_added_line() {
    for h in parse_diff(DIFF) {
        assert!(h.added.iter().all(|l| !l.starts_with("++")));
    }
}

/// The whole point of content hashing: line numbers move under rebase, anchors must not.
#[test]
fn anchor_survives_line_number_shift() {
    let shifted = DIFF.replace("@@ -88,6 +88,9 @@", "@@ -140,6 +140,9 @@");
    assert_eq!(parse_diff(DIFF)[0].anchor, parse_diff(&shifted)[0].anchor);
}

#[test]
fn anchor_survives_reindentation() {
    let reindented = DIFF.replace("+        if self.retry_count", "+    if self.retry_count");
    assert_eq!(parse_diff(DIFF)[0].anchor, parse_diff(&reindented)[0].anchor);
}

#[test]
fn anchor_changes_when_content_changes() {
    let edited = DIFF.replace("retry_count == 0", "retry_count < 1");
    assert_ne!(parse_diff(DIFF)[0].anchor, parse_diff(&edited)[0].anchor);
}

#[test]
fn distinct_hunks_get_distinct_anchors() {
    let hunks = parse_diff(DIFF);
    assert_ne!(hunks[0].anchor, hunks[1].anchor);
}

#[test]
fn an_anchor_is_the_digest_of_the_collapsed_lines() {
    assert_eq!(
        anchor_of(&["   hello \t world ".to_string(), "  ".to_string()]),
        "sha256:a948904f2f0f479b8f8197694b30184b0d2ed1c1cd2a1ec0fb85d299a192a447"
    );
    assert_eq!(
        anchor_of(&[]),
        "sha256:e3b0c44298fc1c149afbf4c8996fb92427ae41e4649b934ca495991b7852b855"
    );
}

#[test]
fn white_space_beyond_ascii_separates_words_too() {
    assert_eq!(
        anchor_of(&["hello\u{a0}world".to_string()]),
        anchor_of(&["hello world".to_string()])
    );
    assert_ne!(
        anchor_of(&["hello\u{b7}world".to_string()]),
        anchor_of(&["hello world".to_string()])
    );
}

#[test]
fn the_body_holds_the_header_and_the_content() {
    let hunks = parse_diff(DIFF);
    assert_eq!(
        hunks[1].body,
        "@@ -200,2 +203,3 @@ impl Syncer {\n     fn flush(&self) {\n+        self.buffer.clear();\n     }"
    );
    assert_eq!(hunks[1].header, "@@ -200,2 +203,3 @@ impl Syncer {");
    assert_eq!(hunks[1].key(), ("src/sync.rs".to_string(), hunks[1].anchor.clone()));
}

#[test]
fn a_hunk_that_adds_nothing_is_left_out() {
    let diff = "diff --git a/x b/x\n@@ -1,2 +1,1 @@\n-gone\n kept\n@@ -9,1 +8,2 @@\n+new\n";
    let hunks = parse_diff(diff);
    assert_eq!(hunks.len(), 1);
    assert_eq!(hunks[0].header, "@@ -9,1 +8,2 @@");
    assert!(parse_diff("").is_empty());
}

#[test]
fn a_file_without_a_second_side_is_named_by_the_first() {
    let hunks = parse_diff("diff --git a/only\n@@ -1 +1 @@\r\n+x\r\n");
    assert_eq!(hunks[0].file, "only");
    assert_eq!(hunks[0].header, "@@ -1 +1 @@");
    assert_eq!(hunks[0].added, vec!["x"]);
}

#[test]
fn printed_answers_are_trimmed() {
    assert_eq!(repo_root("/tmp/x\n"), "/tmp/x");
    assert_eq!(current_branch("feature/x\n"), "feature/x");
    assert_eq!(rev_parse("abc\n"), "abc");
    assert_eq!(merge_base(" abc \n"), "abc");
}

#[test]
fn origin_is_preferred_but_never_assumed() {
    assert_eq!(default_remote("upstream\norigin\n").as_deref(), Some("origin"));
    assert_eq!(default_remote("upstream\nfork\n").as_deref(), Some("upstream"));
    assert_eq!(default_remote("\n"), None);
}

#[test]
fn renames_alone_are_recognised() {
    assert!(all_hunks_are_pure_renames("R100\ta\tb\nR100\tc\td\n"));
    assert!(!all_hunks_are_pure_renames("R100\ta\tb\nM\tc\n"));
    assert!(!all_hunks_are_pure_renames(""));
    assert!(diff_ignoring_whitespace_empty(" \n"));
    assert!(!diff_ignoring_whitespace_empty("diff --git a/x b/x\n"));
    assert_eq!(changed_files("a.rs\nb.rs\n"), vec!["a.rs", "b.rs"]);
    assert_eq!(commit_hunks(DIFF).len(), 3);
}

#[test]
fn hits_outside_the_excluded_files_are_kept_up_to_forty() {
    let out = "a.rs:1:x\nb.rs:2:x\nc.rs\n";
    assert_eq!(grep_symbol(Some(out), &["a.rs".to_string()]), vec!["b.rs:2:x", "c.rs"]);
    assert!(grep_symbol(None, &[]).is_empty());
    let many: String = (0..50).map(|i| format!("f.rs:{i}:x\n")).collect();
    let hits = grep_symbol(Some(&many), &[]);
    assert_eq!(hits.len(), 40);
    assert_eq!(hits[39], "f.rs:39:x");
}

#[test]
fn questions_to_git_are_spelled_out() {
    let q = Query::Diff { base: "a".to_string(), head: "b".to_string() };
    assert_eq!(q.args(), vec!["diff", "--find-renames", "--no-color", "a..b"]);
    let q = Query::RemoteHead { remote: "origin".to_string() };
    assert_eq!(q.args(), vec!["symbolic-ref", "refs/remotes/origin/HEAD"]);
    let q = Query::Log { base: "a".to_string(), head: "b".to_string() };
    assert_eq!(
        q.args(),
        vec!["log", "--format=%H%x00%(trailers:key=Co-Authored-By,valueonly)%x00", "a..b"]
    );
    let q = Query::Grep { symbol: "s".to_string() };
    assert_eq!(q.args(), vec!["grep", "-n", "-w", "--", "s"]);
}

#[test]
fn an_anchor_is_the_digest_of_the_words() {
    let added = vec!["   hello ".to_string(), "\t".to_string()];
    assert_eq!(text_to_anchor(&added), "hello\n");
    assert_eq!(
        anchor_of(&added),
        "sha256:5891b5b522d5df086d0ff0b110fbd9d21bb4fc7163af34d08286a2e846f6be03"
    );
    assert_eq!(anchor_from_digest(&[0, 10, 255]), "sha256:000aff");
}

#[test]
fn attributes_tell_which_files_are_generated() {
    let out = "a.rs\u{0}linguist-generated\u{0}set\u{0}\
b.rs\u{0}linguist-generated\u{0}unspecified\u{0}\
c d.rs\u{0}linguist-generated\u{0}true\u{0}\
e.rs\u{0}linguist-generated\u{0}false\u{0}";
    assert_eq!(marked_generated(out), vec!["a.rs", "c d.rs"]);
    assert!(marked_generated("").is_empty());
    let files = vec!["a.rs".to_string(), "b.rs".to_string()];
    assert_eq!(
        Query::Marks { files }.args(),
        vec!["check-attr", "-z", "linguist-generated", "--", "a.rs", "b.rs"]
    );
}
