use shipgate::git::{parse_diff, Hunk};
use shipgate::llm::judge::{
    parse_label, CliJudge, DisputeReply, DivergenceReply, Graded, ANSWER_SHAPE, DISPUTE_SYSTEM,
};
use shipgate::llm::cli::Cli;
use shipgate::llm::stub::{StubGenerator, StubJudge};
use shipgate::llm::{
    cites_a_changed_line, cites_the_diff, hunk_start, Context, Generation, Generator, Judge, Label,
};

fn hunks() -> Vec<Hunk> {
    parse_diff(
        "diff --git a/src/sync.rs b/src/sync.rs\n@@ -1,1 +1,2 @@\n+    let retry_count = 3;\n",
    )
}

#[test]
fn generic_answer_cites_nothing() {
    // Consequences, an invariant and a failure mode, equally true of any diff.
    let generic = "If this fails partway the state is left inconsistent because there \
                   is no rollback, and it assumes the input is already validated upstream.";
    assert!(!cites_the_diff(generic, &hunks()));
}

#[test]
fn naming_an_identifier_counts() {
    assert!(cites_the_diff("retry_count is never decremented", &hunks()));
}

#[test]
fn a_line_reference_counts() {
    assert!(cites_the_diff("see sync.rs:88 for the early return", &hunks()));
}

#[test]
fn short_words_do_not_count_as_citations() {
    assert!(!cites_the_diff("let it be", &hunks()));
}

#[test]
fn citations_ignore_capitals_and_numbers_are_no_names() {
    assert!(cites_the_diff("RETRY_COUNT stays", &hunks()));
    assert!(cites_the_diff("Sync.rs has it", &hunks()));
    let numbers = parse_diff("diff --git a/x/ÉTAT b/x/ÉTAT\n@@ -1 +1 @@\n+12345 Straße\n");
    assert!(!cites_the_diff("12345", &numbers));
    assert!(cites_the_diff("see état", &numbers));
    assert!(cites_the_diff("STRAßE", &numbers));
}

const DIFF: &str = "\
diff --git a/src/sync.rs b/src/sync.rs
--- a/src/sync.rs
+++ b/src/sync.rs
@@ -80,2 +88,3 @@
 let before = 1;
-let gone = 2;
+let retry_count = 3;
";

fn disputed() -> Vec<Hunk> {
    parse_diff(DIFF)
}

#[test]
fn a_line_inside_the_hunk_counts() {
    assert!(cites_a_changed_line("sync.rs:89 never decrements it", &disputed()));
    assert!(cites_a_changed_line("see src/sync.rs:88", &disputed()));
}

#[test]
fn a_line_outside_the_hunk_does_not() {
    assert!(!cites_a_changed_line("sync.rs:400 is the problem", &disputed()));
    assert!(!cites_a_changed_line("sync.rs:90", &disputed()));
}

/// The check on answers accepts a bare identifier. Disputing is cheap and upholding is not,
/// so this one wants the line.
#[test]
fn naming_the_file_without_a_line_is_not_enough() {
    assert!(!cites_a_changed_line("sync.rs has the wrong premise", &disputed()));
    assert!(!cites_a_changed_line("retry_count is never decremented", &disputed()));
}

#[test]
fn an_unrelated_file_does_not_count() {
    assert!(!cites_a_changed_line("other.rs:88 disagrees", &disputed()));
}

#[test]
fn a_header_without_a_start_has_no_lines_to_cite() {
    assert_eq!(hunk_start("@@ -1,1 +5,2 @@"), Some(5));
    assert_eq!(hunk_start("@@ -1,1 @@"), None);
    assert_eq!(hunk_start("@@ -1 +4294967296 @@"), None);
    let mut h = disputed();
    h[0].header = "@@".to_string();
    assert!(!cites_a_changed_line("sync.rs:88", &h));
}

fn context<'a>(hunks: &'a [Hunk], max: usize, test: Option<&str>) -> Context<'a> {
    Context {
        diff: DIFF,
        hunks,
        call_sites: vec![],
        shadowed: vec![],
        test_command: test.map(|t| t.to_string()),
        run_invocation: None,
        surfaces: vec![],
        pr_title: "Retry".to_string(),
        commit_subjects: vec!["".to_string(), "feat: retry".to_string(), "  ".to_string()],
        all_files: vec!["src/sync.rs".to_string()],
        questions: (3, max),
    }
}

#[test]
fn blank_subjects_are_no_restatement_source() {
    let h = hunks();
    assert_eq!(context(&h, 3, None).restatement_sources(), vec!["Retry", "feat: retry"]);
}

fn asked(g: Result<Generation, String>) -> Vec<String> {
    match g {
        Ok(Generation::Questions(qs)) => qs.into_iter().map(|q| q.kind).collect(),
        _ => panic!("no questions"),
    }
}

#[test]
fn stand_ins_keep_to_the_band() {
    let h = hunks();
    let kinds = asked(StubGenerator.generate(&context(&h, 6, Some("cargo test"))));
    assert_eq!(kinds, vec!["intent", "prediction", "adversarial", "checkable"]);
    let kinds = asked(StubGenerator.generate(&context(&h, 6, None)));
    assert_eq!(kinds, vec!["intent", "prediction", "adversarial"]);
    let kinds = asked(StubGenerator.generate(&context(&h, 0, None)));
    assert_eq!(kinds, vec!["intent"]);
    let none: Vec<Hunk> = vec![];
    match StubGenerator.generate(&context(&none, 3, None)) {
        Ok(Generation::Declined(why)) => assert_eq!(why, "nothing worth asking"),
        _ => panic!("nothing to ask about"),
    }
}

#[test]
fn stand_ins_name_their_files() {
    let h = hunks();
    match StubGenerator.generate(&context(&h, 6, Some("cargo test"))) {
        Ok(Generation::Questions(qs)) => {
            assert!(qs[0].text.starts_with("1 files changed together here."), "{}", qs[0].text);
            assert_eq!(qs[2].text, "What input to src/sync.rs breaks this change?");
            assert_eq!(qs[3].hints[1], "`cargo test` covers the changed paths.");
            assert_eq!(qs[3].anchor, h[0].anchor);
        }
        _ => panic!("no questions"),
    }
}

#[test]
fn a_script_is_followed_and_its_last_entry_repeats() {
    let mut judge = StubJudge::scripted(vec![Some(Label::Partial), None, Some(Label::Wrong)]);
    assert_eq!(judge.judge("", "", "").unwrap().label, Label::Partial);
    assert_eq!(judge.judge("", "", "").unwrap_err(), "[offline] scripted failure");
    assert_eq!(judge.judge("", "", "").unwrap().label, Label::Wrong);
    let v = judge.judge("", "", "").unwrap();
    assert_eq!(v.label, Label::Wrong);
    assert_eq!(v.feedback, "[offline] scripted label: wrong");
}

#[test]
fn without_a_script_length_decides() {
    let mut judge = StubJudge::default().with_delay(5);
    assert_eq!(judge.delay, 5);
    let long = "x".repeat(41);
    assert_eq!(judge.judge("", "", &format!("  {long} ")).unwrap().label, Label::Demonstrates);
    assert_eq!(judge.judge("", "", &long[1..]).unwrap().label, Label::Restates);
    assert_eq!(judge.model(), "offline-stub");
    assert!(!judge.divergence("", "", "").unwrap().diverged);
}

#[test]
fn offline_disputes_are_rejected_unless_a_ruling_is_scripted() {
    let mut judge = StubJudge::default();
    assert!(!judge.dispute("", "", "").unwrap().upheld);
    let mut judge = judge.upholding("premise");
    let d = judge.dispute("", "", "").unwrap();
    assert!(d.upheld);
    assert_eq!(d.kind, "premise");
    assert_eq!(d.feedback, "[offline] scripted ruling: upheld as premise");
}

fn judge() -> CliJudge {
    CliJudge {
        cli: Cli { program: "helper".to_string() },
        model: "haiku".to_string(),
        diff: "THEDIFF".to_string(),
        restatement_sources: vec!["one".to_string(), "two".to_string()],
    }
}

fn graded(label: &str, feedback: &str) -> Graded {
    Graded { label: label.to_string(), feedback: feedback.to_string() }
}

#[test]
fn a_clear_grade_stands_and_a_borderline_one_is_repeated() {
    let j = judge();
    assert_eq!(j.repeats(&graded("partial", "")), 2);
    assert_eq!(j.repeats(&graded("restates", "")), 0);
    let v = j.judge(graded("wrong", "no"), vec![graded("demonstrates", "yes")]);
    assert_eq!((v.label, v.feedback.as_str()), (Label::Wrong, "no"));
    let v = j.judge(graded("partial", "p"), vec![graded("wrong", "a"), graded("wrong", "b")]);
    assert_eq!((v.label, v.feedback.as_str()), (Label::Wrong, "b"));
    let v = j.judge(graded("partial", "p"), vec![graded("demonstrates", "a"), graded("wrong", "b")]);
    assert_eq!((v.label, v.feedback.as_str()), (Label::Partial, "b"));
    let v = j.judge(graded("partial", "p"), vec![graded("demonstrates", "a"), graded("partial", "b")]);
    assert_eq!((v.label, v.feedback.as_str()), (Label::Partial, "a"));
    let v = j.judge(graded("partial", "p"), vec![graded("restates", "a")]);
    assert_eq!((v.label, v.feedback.as_str()), (Label::Partial, "a"));
    let v = j.judge(graded("partial", "p"), vec![graded("demonstrates", "a")]);
    assert_eq!(v.label, Label::Partial);
    let v = j.judge(graded("partial", "p"), vec![graded("wrong", "a")]);
    assert_eq!(v.label, Label::Partial);
    let v = j.judge(graded("partial", "p"), vec![]);
    assert_eq!((v.label, v.feedback.as_str()), (Label::Partial, "p"));
}

#[test]
fn labels_score_in_tenths_and_unknown_ones_are_wrong() {
    for (label, name, score) in [
        (Label::Wrong, "wrong", 0.0),
        (Label::Restates, "restates", 0.3),
        (Label::Partial, "partial", 0.6),
        (Label::Demonstrates, "demonstrates", 0.9),
    ] {
        assert_eq!(label.score() as f64 / 10.0, score);
        assert_eq!(label.as_str(), name);
        assert_eq!(parse_label(name), label);
    }
    assert_eq!(parse_label("Partial"), Label::Wrong);
}

#[test]
fn an_upheld_dispute_needs_a_known_kind() {
    let rule = |upheld: bool, kind: &str| {
        judge().dispute(DisputeReply { upheld, kind: kind.to_string(), feedback: "f".to_string() })
    };
    assert!(rule(true, "premise").upheld);
    assert!(rule(true, "reference").upheld);
    assert!(rule(true, "code_bug").upheld);
    assert!(!rule(true, "").upheld);
    assert!(!rule(true, "other").upheld);
    assert!(!rule(false, "premise").upheld);
    assert_eq!(rule(true, "other").kind, "other");
}

#[test]
fn a_divergence_has_to_say_what_diverged() {
    let rule = |diverged: bool, what: &str| {
        judge().divergence(DivergenceReply { diverged, what: what.to_string() }).diverged
    };
    assert!(rule(true, "it printed 3"));
    assert!(!rule(true, " \n"));
    assert!(!rule(false, "it printed 3"));
}

#[test]
fn the_grader_sees_the_diff_and_the_sources_but_never_the_reference() {
    let (system, user) = judge().grade_once("QUESTION", "ANSWER");
    assert!(system.ends_with("\n\n# The diff\n\nTHEDIFF"));
    assert!(system.contains("# The respondent can already read all of this\n\n- one\n- two"));
    assert!(system.contains(ANSWER_SHAPE));
    assert_eq!(user, "# Question\n\nQUESTION\n\n# The respondent's answer\n\nANSWER");
    let (system, user) = judge().dispute_once("Q", "R", "C");
    assert!(system.starts_with(DISPUTE_SYSTEM));
    assert_eq!(
        user,
        "# Question\n\nQ\n\n# Stored reference answer\n\nR\n\n# The respondent's claim\n\nC"
    );
    let (_, user) = judge().divergence_once("E", "P", "O");
    assert!(user.contains("# What the run was predicted to print\n\nP\n\n"));
    assert!(user.ends_with("\n\nO"));
    assert_eq!(judge().model(), "haiku");
}

#[test]
fn a_line_of_the_diff_is_cited_by_its_number() {
    let h = parse_diff(
        "diff --git a/src/sync.rs b/src/sync.rs\n@@ -80,2 +88,3 @@\n let before = 1;\n-let gone = 2;\n+let retry_count = 3;\n",
    );
    assert!(!cites_the_diff("note: this fails in 3 ways", &h));
    assert!(!cites_the_diff("line :889 of it", &h));
    assert!(!cites_the_diff("line :90 of it", &h));
    assert!(cites_the_diff("line : 88 of it", &h));
    assert!(cites_the_diff("line 88: it loops", &h));
    assert!(cites_the_diff("88", &h));
    assert!(!cites_the_diff("a u88 or 188 or 88_0: it loops", &h));
    assert!(cites_the_diff("line :88, of it", &h));
    assert!(cites_the_diff("at :89", &h));
    assert!(!cites_a_changed_line("sync.rs:889 is the problem", &h));
    assert!(!cites_a_changed_line("sync.rs:8 is the problem", &h));
    assert!(cites_a_changed_line("sync.rs:889, no, sync.rs:89", &h));
}

#[test]
fn forty_characters_are_counted_as_characters() {
    let mut judge = StubJudge::default();
    assert_eq!(judge.judge("", "", &"é".repeat(40)).unwrap().label, Label::Restates);
    assert_eq!(judge.judge("", "", &"é".repeat(41)).unwrap().label, Label::Demonstrates);
}
