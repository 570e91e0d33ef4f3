use shipgate::authorship::{is_assistant, read_log, resolve, significant, Mode};
use shipgate::git::parse_diff;

/// What the assistant goes by.
const NAME: &str = "Robin";

/// What a log of three commits prints, the newest first: two from the assistant, one typed
/// by hand between them.
const LOG: &str = "ccc\u{0}Robin Sonnet 4.5 <noreply@example.com>\n\u{0}\n\
bbb\u{0}\u{0}\n\
aaa\u{0}Robin Opus 5 (1M context) <noreply@example.com>\n\u{0}\n";

const FIRST: &str = "\
diff --git a/a.rs b/a.rs
--- a/a.rs
+++ b/a.rs
@@ -1 +1,3 @@
-fn main() {}
+fn main() {
+    let retry_count = 3;
+}
";

const SECOND: &str = "\
diff --git a/a.rs b/a.rs
--- a/a.rs
+++ b/a.rs
@@ -1,3 +1,4 @@
 fn main() {
     let retry_count = 3;
+    let timeout = 5000;
 }
";

const BRANCH: &str = "\
diff --git a/a.rs b/a.rs
--- a/a.rs
+++ b/a.rs
@@ -1 +1,4 @@
-fn main() {}
+fn main() {
+    let retry_count = 3;
+    let timeout = 5000;
+}
diff --git a/b.rs b/b.rs
--- /dev/null
+++ b/b.rs
@@ -0,0 +1 @@
+fn helper() {}
";

fn patches() -> Vec<String> {
    vec![SECOND.to_string(), FIRST.to_string()]
}

#[test]
fn matches_claude_prefix_across_model_names() {
    let scope = resolve(LOG, &patches(), NAME);
    assert_eq!(scope.mode, Mode::Trailers);
    assert_eq!(scope.total_commits, 3);
    assert_eq!(scope.ai_commits.len(), 2);
    assert_eq!(scope.ai_commits, vec!["ccc", "aaa"]);
}

#[test]
fn hand_typed_hunks_fall_out_of_scope() {
    let scope = resolve(LOG, &patches(), NAME);
    let hunks = parse_diff(BRANCH);
    let in_scope: Vec<&str> =
        hunks.iter().filter(|h| scope.contains(h)).map(|h| h.file.as_str()).collect();
    assert!(in_scope.contains(&"a.rs"), "AI file must be quizzed");
    assert!(!in_scope.contains(&"b.rs"), "hand-typed file must not be");
}

#[test]
fn no_trailers_anywhere_falls_back_to_the_whole_diff() {
    let scope = resolve("abc\u{0}\u{0}\n", &[], NAME);
    assert_eq!(scope.mode, Mode::Unknown);
    assert!(parse_diff(BRANCH).iter().all(|h| scope.contains(h)));
}

#[test]
fn single_trailered_commit_reads_as_squashed() {
    let log = "abc\u{0}Robin Opus 5 (1M context) <noreply@example.com>\n\u{0}\n";
    let commits = read_log(log, NAME);
    assert_eq!(commits.mode, Mode::Squashed);
    let scope = resolve(log, &[], NAME);
    assert_eq!(scope.mode, Mode::Squashed);
    assert!(scope.ai_lines.is_empty());
    assert!(parse_diff(BRANCH).iter().all(|h| scope.contains(h)));
}

#[test]
fn the_name_in_front_of_the_address_decides() {
    assert!(is_assistant("Robin Opus 5 (1M context) <noreply@example.com>", NAME));
    assert!(is_assistant("  Robin, and others", NAME));
    assert!(!is_assistant("Jean <Robin@example.com>", NAME));
    assert!(!is_assistant("Jean, Robin", NAME));
    assert!(!is_assistant("robin", NAME));
    assert!(!is_assistant("Robin", ""));
}

#[test]
fn lines_that_identify_nothing_are_skipped() {
    assert_eq!(significant("   let   x = 10; ").as_deref(), Some("let x = 10;"));
    assert_eq!(significant("    }"), None);
    assert_eq!(significant("end"), None);
    assert_eq!(significant("ééé"), None);
    assert_eq!(significant("éééééé").as_deref(), Some("éééééé"));
    assert_eq!(significant("(a, b)"), None);
    assert_eq!(significant("été1 +"), Some("été1 +".to_string()));
}

#[test]
fn a_pair_is_held_once() {
    let twice = vec![FIRST.to_string(), FIRST.to_string()];
    let once = vec![FIRST.to_string()];
    assert_eq!(resolve(LOG, &twice, NAME).ai_lines, resolve(LOG, &once, NAME).ai_lines);
}

#[test]
fn modes_have_names() {
    assert_eq!(Mode::Trailers.as_str(), "trailers");
    assert_eq!(Mode::Squashed.as_str(), "squashed");
    assert_eq!(Mode::Unknown.as_str(), "unknown");
}
