use shipgate::git::{anchor_of, Hunk};
use shipgate::triage::{assess, is_generated, is_semantic, question_band, Verdict};

fn hunk(file: &str, added: &[&str]) -> Hunk {
    let added: Vec<String> = added.iter().map(|s| s.to_string()).collect();
    Hunk {
        file: file.into(),
        anchor: anchor_of(&added),
        header: "@@ -1,1 +1,2 @@".into(),
        added,
        body: String::new(),
    }
}

#[test]
fn a_single_small_change_gets_the_floor() {
    let (min, max) = question_band(&[hunk("a.rs", &["if x { return 1; }"])]);
    assert_eq!((min, max), (3, 3));
}

/// Lines are not areas. A long mechanical diff is still one idea.
#[test]
fn line_count_alone_does_not_buy_questions() {
    let lines: Vec<String> = (0..200).map(|i| format!("    let x{i} = 1;")).collect();
    let refs: Vec<&str> = lines.iter().map(|s| s.as_str()).collect();
    assert_eq!(question_band(&[hunk("a.rs", &refs)]).1, 3);
}

#[test]
fn more_files_carrying_real_change_widen_the_band() {
    let hunks: Vec<Hunk> = (0..8)
        .map(|i| {
            let f = format!("f{i}.rs");
            hunk(&f, &["if x { return 1; }"])
        })
        .collect();
    assert_eq!(question_band(&hunks).1, 6, "eight areas should reach the ceiling");
}

/// Past six the quiz costs more time than reviewing the change, which is how a gate turns
/// into a thing people route around.
#[test]
fn the_ceiling_holds_however_large_the_change() {
    let hunks: Vec<Hunk> =
        (0..200).map(|i| hunk(&format!("f{i}.rs"), &["match x { _ => 1 }"])).collect();
    assert_eq!(question_band(&hunks).1, 6);
}

/// Hunks with no control flow or signature in them are noise, not areas.
#[test]
fn files_with_nothing_semantic_in_them_do_not_count() {
    let hunks = vec![
        hunk("a.rs", &["if x { return 1; }"]),
        hunk("b.md", &["some prose"]),
        hunk("c.txt", &["more prose"]),
    ];
    assert_eq!(question_band(&hunks).1, 3);
}

#[test]
fn the_floor_never_exceeds_the_ceiling() {
    for n in 0..30 {
        let hunks: Vec<Hunk> =
            (0..n).map(|i| hunk(&format!("f{i}.rs"), &["if x { return 1; }"])).collect();
        let (min, max) = question_band(&hunks);
        assert!(min <= max, "band inverted at {n} areas: {min}..{max}");
    }
}

#[test]
fn a_second_hunk_in_a_file_counts_for_half() {
    let four: Vec<Hunk> = (0..4).map(|i| hunk(&format!("f{i}.rs"), &["fn a() {}"])).collect();
    assert_eq!(question_band(&four).1, 4);
    let same: Vec<Hunk> = (0..4).map(|_| hunk("f.rs", &["fn a() {}"])).collect();
    assert_eq!(question_band(&same).1, 3);
    let seven: Vec<Hunk> = (0..7).map(|_| hunk("f.rs", &["fn a() {}"])).collect();
    assert_eq!(question_band(&seven).1, 4);
}

fn reason(v: Verdict) -> Option<String> {
    match v {
        Verdict::Quiz => None,
        Verdict::Skip(why) => Some(why),
    }
}

#[test]
fn every_reason_to_skip_is_given() {
    let files = vec!["a.rs".to_string()];
    let lock = vec!["x/Cargo.lock".to_string(), "vendor/y.rs".to_string()];
    let code = [hunk("a.rs", &["if x { return 1; }"])];
    let prose = [hunk("a.rs", &["let x = 1;", "let y = 2;"])];
    assert_eq!(reason(assess(&[], &[], false, false, &code)).as_deref(), Some("no files changed"));
    assert_eq!(
        reason(assess(&lock, &[], false, false, &code)).as_deref(),
        Some("only generated or vendored files")
    );
    assert_eq!(reason(assess(&files, &[], true, true, &code)).as_deref(), Some("whitespace only"));
    assert_eq!(
        reason(assess(&files, &[], false, true, &code)).as_deref(),
        Some("pure renames, no content change")
    );
    assert_eq!(
        reason(assess(&files, &[], false, false, &prose)).as_deref(),
        Some("2 added lines, no control flow or signature change")
    );
    assert_eq!(reason(assess(&files, &[], false, false, &code)), None);
    assert_eq!(
        reason(assess(&files, &files, false, false, &code)).as_deref(),
        Some("only generated or vendored files")
    );
    let both = vec!["a.rs".to_string(), "b.rs".to_string()];
    assert_eq!(reason(assess(&both, &files, false, false, &code)), None);
    let ten: Vec<&str> = (0..10).map(|_| "let x = 1;").collect();
    assert_eq!(reason(assess(&files, &[], false, false, &[hunk("a.rs", &ten)])), None);
}

#[test]
fn generated_files_and_semantic_lines_are_told_apart() {
    assert!(is_generated("web/app.min.js"));
    assert!(is_generated("a/node_modules/b.js"));
    assert!(is_generated("go.sum"));
    assert!(!is_generated("src/main.rs"));
    assert!(is_semantic("    a && b"));
    assert!(!is_semantic("let x = 1;"));
}
