use shipgate::git::{parse_diff, Hunk};
use shipgate::llm::cli::Cli;
use shipgate::llm::generate::{fit, render_hunks, system_prompt, user_prompt, CliGenerator, Reply};
use shipgate::llm::{Context, Generated, Generation};

fn q(kind: &str) -> Generated {
    Generated {
        kind: kind.into(),
        file: "f.rs".into(),
        anchor: "a".into(),
        text: "t".into(),
        reference: "r".into(),
        hints: vec![],
    }
}

#[test]
fn the_prompt_states_the_band_it_was_given() {
    let p = system_prompt(3, 6);
    assert!(p.contains("between 3 and 6 questions"), "{p}");
    assert!(!p.contains("{min}") && !p.contains("{max}"), "placeholder left in the prompt");
}

/// The kind is useless without its context, and worse than useless with invented context:
/// the prompt has to say both.
#[test]
fn the_prompt_ties_the_shadowed_kind_to_its_context() {
    let p = system_prompt(3, 6);
    assert!(p.contains("shadowed"), "the kind is missing from the prompt");
    assert!(
        p.contains(
            "Use ONLY \
    where a guard appears in the shadowed context"
        ),
        "the kind is not tied to the context that makes it answerable"
    );
    assert!(p.contains("| shadowed |"), "the kind is missing from the schema");
}

#[test]
fn the_band_is_repeated_where_it_is_explained() {
    let p = system_prompt(12, 34);
    assert!(p.contains("ask 34 only if there are 34 separate things worth understanding, and 12 if there are 12. A padded question"), "{p}");
}

#[test]
fn a_reply_over_the_ceiling_is_trimmed() {
    let (out, note) =
        fit(vec![q("intent"), q("prediction"), q("adversarial"), q("justification")], 3, 3);
    assert_eq!(out.len(), 3);
    assert_eq!(
        note.as_deref(),
        Some("  generator returned 4 questions for a ceiling of 3 — keeping 3")
    );
}

/// Every other kind can be asked of another hunk; the intent question cannot, and a gate
/// without one is what the coverage line warns about.
#[test]
fn trimming_never_drops_the_intent_question() {
    let (out, _) = fit(vec![q("prediction"), q("adversarial"), q("intent")], 3, 1);
    assert_eq!(out.len(), 1);
    assert_eq!(out[0].kind, "intent");
}

/// Under the floor is the generator saying there was less here than the band assumed. Padding
/// it back up is exactly what the band exists to stop.
#[test]
fn a_reply_under_the_floor_is_left_alone() {
    let (out, note) = fit(vec![q("intent"), q("prediction")], 4, 6);
    assert_eq!(out.len(), 2);
    assert_eq!(
        note.as_deref(),
        Some("  note: 2 questions for a floor of 4 — the generator found less to ask about")
    );
    assert_eq!(fit(vec![q("intent")], 1, 1).1, None);
}

#[test]
fn the_intent_question_changes_places_with_the_first() {
    let (out, _) = fit(vec![q("a"), q("b"), q("intent"), q("d")], 3, 3);
    let kinds: Vec<&str> = out.iter().map(|g| g.kind.as_str()).collect();
    assert_eq!(kinds, vec!["intent", "b", "a"]);
}

fn hunks() -> Vec<Hunk> {
    parse_diff("diff --git a/x.rs b/x.rs\n@@ -1 +1 @@\n+let retry = 1;\n@@ -9 +9 @@\n+let more = 2;\n")
}

fn context<'a>(hunks: &'a [Hunk]) -> Context<'a> {
    Context {
        diff: "",
        hunks,
        call_sites: vec![],
        shadowed: vec![],
        test_command: None,
        run_invocation: None,
        surfaces: vec![],
        pr_title: "TITLE".to_string(),
        commit_subjects: vec!["ONE".to_string()],
        all_files: vec!["x.rs".to_string(), "y.rs".to_string()],
        questions: (1, 2),
    }
}

#[test]
fn the_change_is_told_in_order() {
    let h = hunks();
    let mut ctx = context(&h);
    let rendered = format!(
        "--- x.rs (anchor: {})\n@@ -1 +1 @@\n+let retry = 1;\n\n--- x.rs (anchor: {})\n@@ -9 +9 @@\n+let more = 2;\n\n",
        h[0].anchor, h[1].anchor
    );
    assert_eq!(render_hunks(&ctx), rendered);
    assert_eq!(
        user_prompt(&ctx),
        format!(
            "# AI-authored hunks\n\n{rendered}# What this change says it is for\n\nTITLE\n- ONE\n\n# Every file this change touches\n\nx.rs\ny.rs\n\n# Test command\n\nNone found. Do not use the checkable kind.\n\n# Call sites\n\nNone found. Do not use the cross_cutting kind.\n\n# What this change now runs before\n\nNone found. Do not use the shadowed kind.\n"
        )
    );
    ctx.test_command = Some("cargo test".to_string());
    ctx.call_sites = vec!["SITE".to_string()];
    ctx.shadowed = vec!["GUARD".to_string(), "ARM".to_string()];
    let p = user_prompt(&ctx);
    assert!(p.contains("The project is tested with `cargo test`. A checkable question may ask"));
    assert!(p.contains("# Call sites\n\nSITE\n\n"));
    assert!(p.ends_with("now sits behind it.\n\nGUARD\nARM\n"));
}

fn generator() -> CliGenerator {
    CliGenerator { cli: Cli { program: "helper".to_string() }, model: "sonnet".to_string() }
}

#[test]
fn a_made_up_anchor_is_put_on_the_first_hunk() {
    let h = hunks();
    let mut known = q("intent");
    known.anchor = h[1].anchor.clone();
    known.file = "elsewhere.rs".to_string();
    let reply = Reply { skip: false, reason: String::new(), questions: vec![known, q("prediction")] };
    match generator().generate(&context(&h), reply).0 {
        Generation::Questions(qs) => {
            assert_eq!((qs[0].file.as_str(), &qs[0].anchor), ("elsewhere.rs", &h[1].anchor));
            assert_eq!((qs[1].file.as_str(), &qs[1].anchor), ("x.rs", &h[0].anchor));
            assert_eq!(qs[1].kind, "prediction");
        }
        Generation::Declined(_) => panic!("there are questions"),
    }
}

#[test]
fn a_reply_without_questions_declines() {
    let h = hunks();
    let decline = |skip: bool, reason: &str, questions: Vec<Generated>| {
        let reply = Reply { skip, reason: reason.to_string(), questions };
        match generator().generate(&context(&h), reply) {
            (Generation::Declined(why), note) => {
                assert_eq!(note, Some(format!("  generator declined: {why}")));
                why
            }
            _ => panic!("nothing was asked"),
        }
    };
    assert_eq!(decline(true, "a bump", vec![q("intent")]), "a bump");
    assert_eq!(decline(false, "", vec![]), "nothing worth asking");
    let (system, user) = generator().prompts(&context(&h));
    assert_eq!(system, system_prompt(1, 2));
    assert_eq!(user, user_prompt(&context(&h)));
}
