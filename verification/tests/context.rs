use shipgate::context::run::{choose_invocation, choose_test_command};
use shipgate::context::tree::{extension, Entry, Tree};
use shipgate::context::{
    call_sites, changed_symbols, has_marker, has_word, new_start, paths_to_read, run_invocation, shadowed,
    surfaces, test_command, Grep,
};
use shipgate::git::{parse_diff, Hunk};

fn hunks(added: &str) -> Vec<Hunk> {
    parse_diff(&format!("diff --git a/src/sync.rs b/src/sync.rs\n@@ -1,1 +1,2 @@\n{added}"))
}

fn tree(files: &[(&str, &str)]) -> Tree {
    Tree {
        entries: files
            .iter()
            .map(|(path, text)| Entry { path: path.to_string(), text: Some(text.to_string()) })
            .collect(),
    }
}

fn grep(symbol: &str, out: &str) -> Vec<Grep> {
    vec![Grep { symbol: symbol.to_string(), out: Some(out.to_string()) }]
}

#[test]
fn picks_up_definitions() {
    let h = hunks("+pub fn retry_with_backoff(n: u32) {\n+struct SyncState {\n");
    let s = changed_symbols(&h);
    assert!(s.contains(&"retry_with_backoff".to_string()));
    assert!(s.contains(&"SyncState".to_string()));
}

#[test]
fn ignores_lines_that_merely_call_something() {
    let h = hunks("+    let x = compute(1);\n");
    assert!(changed_symbols(&h).is_empty());
}

/// A file and a diff that claims to have added `guard` at the top of its function, so the
/// search has both sides to work from.
fn shadow_fixture(file: &str, guard: &str) -> (Tree, Vec<Hunk>) {
    let diff = format!(
        "diff --git a/keys.rs b/keys.rs\n@@ -2,1 +2,2 @@\n{}",
        guard.lines().map(|l| format!("+{l}\n")).collect::<String>()
    );
    (tree(&[("keys.rs", file)]), parse_diff(&diff))
}

const DISPATCHER: &str = "\
fn handle(key: Key) -> Result<()> {
    if is_quit(key) { return Ok(()); }
    match key {
        Key::Up => scroll(-1),
        Key::Down => scroll(1),
        _ => {}
    }
    Ok(())
}
";

#[test]
fn a_guard_is_reported_with_the_dispatch_below_it() {
    let (tree, h) = shadow_fixture(DISPATCHER, "    if is_quit(key) { return Ok(()); }");
    let out = shadowed(&tree, &h);
    let joined = out.join("\n");
    assert!(joined.contains("runs before what follows it"), "{joined}");
    assert!(joined.contains("Key::Up"), "the shadowed dispatch is missing: {joined}");
    assert_eq!(
        out[0],
        "# `keys.rs:2` runs before what follows it\n   if is_quit(key) { return Ok(()); }"
    );
    assert_eq!(out[1], "3: match key {");
    assert_eq!(out[2], "4: Key::Up => scroll(-1),");
}

/// The question is what the change took over, so lines the change itself added below the
/// guard are not an answer to it.
#[test]
fn lines_the_change_added_are_not_reported_as_shadowed() {
    let (tree, h) = shadow_fixture(
        DISPATCHER,
        "    if is_quit(key) { return Ok(()); }\n        Key::Up => scroll(-1),",
    );
    let out = shadowed(&tree, &h);
    let reported: Vec<&String> =
        out.iter().filter(|l| l.chars().next().is_some_and(|c| c.is_ascii_digit())).collect();
    assert!(
        !reported.iter().any(|l| l.contains("Key::Up")),
        "a line the change added was reported as shadowed: {reported:?}"
    );
}

/// A guard with nothing but its own else-branch under it is not a shadow.
#[test]
fn a_guard_with_no_dispatch_below_it_is_dropped() {
    let file = "\
fn handle(key: Key) -> Result<()> {
    if is_quit(key) { return Ok(()); }
    scroll(1);
    Ok(())
}
";
    let (tree, h) = shadow_fixture(file, "    if is_quit(key) { return Ok(()); }");
    assert!(shadowed(&tree, &h).is_empty());
}

/// Added code that only computes cannot shadow anything.
#[test]
fn a_hunk_that_intercepts_nothing_is_dropped() {
    let (tree, h) = shadow_fixture(DISPATCHER, "    let n = compute(1);");
    assert!(shadowed(&tree, &h).is_empty());
}

/// Dedenting past the guard leaves the block it sits in, so what follows is no longer
/// something it precedes.
#[test]
fn dispatch_outside_the_guards_block_is_not_reported() {
    let file = "\
fn handle(key: Key) -> Result<()> {
    if is_quit(key) { return Ok(()); }
}
fn elsewhere(x: u8) {
    match x {
        1 => a(),
        2 => b(),
    }
}
";
    let (tree, h) = shadow_fixture(file, "    if is_quit(key) { return Ok(()); }");
    assert!(shadowed(&tree, &h).is_empty());
}

/// The real case this kind was built for: a prompt branch added above a key dispatch, where
/// every arm below it is what stopped being reached.
#[test]
fn a_guard_added_above_a_dispatch_reports_the_arms_below_it() {
    let file = "\
fn handle(key: Key) -> Result<()> {
    if let Some(q) = typing.clone() {
        if is_quit(key) { return Ok(()); }
        return Ok(());
    }
    match key {
        Key::Up => scroll(-1),
        Key::Down => scroll(1),
    }
    Ok(())
}
";
    let (tree, h) = shadow_fixture(
        file,
        "    if let Some(q) = typing.clone() {\n        if is_quit(key) { return Ok(()); }\n        return Ok(());\n    }",
    );
    let joined = shadowed(&tree, &h).join("\n");
    assert!(joined.contains("Key::Up"), "the shadowed arms are missing: {joined}");
    assert!(joined.contains("Key::Down"), "{joined}");
}

/// A new function is new surface. Reading on from one walks into whatever declaration
/// follows it and reports that as shadowed.
#[test]
fn a_newly_added_function_shadows_nothing() {
    let file = "\
fn added(x: u8) -> bool {
    if x == 0 { return false; }
    true
}
fn existing(x: u8) {
    match x {
        1 => a(),
        2 => b(),
    }
}
";
    let (tree, h) = shadow_fixture(
        file,
        "fn added(x: u8) -> bool {\n    if x == 0 { return false; }\n    true\n}",
    );
    assert!(shadowed(&tree, &h).is_empty());
}

/// Prose is not control flow.
#[test]
fn a_prose_file_is_not_scanned() {
    let t = tree(&[(
        "design.md",
        "# Design\n  a model can return an anchor that matches nothing\n  if it does, remap it\n  else keep it\n",
    )]);
    let diff = "diff --git a/design.md b/design.md\n@@ -1,1 +1,2 @@\n+  a model can return an anchor that matches nothing\n";
    let h = parse_diff(diff);
    assert!(shadowed(&t, &h).is_empty());
}

#[test]
fn at_most_eight_lines_are_reported_below_a_guard() {
    let arms: String = (0..20).map(|i| format!("        {i} => f{i}(),\n")).collect();
    let file = format!(
        "fn handle(x: u8) {{\n    if x > 99 {{ return; }}\n    match x {{\n{arms}    }}\n}}\n"
    );
    let (tree, h) = shadow_fixture(&file, "    if x > 99 { return; }");
    let out = shadowed(&tree, &h);
    assert_eq!(out.len(), 9);
    assert_eq!(out[1], "3: match x {");
    assert_eq!(out[8], "10: 6 => f6(),");
}

#[test]
fn a_file_that_cannot_be_read_shadows_nothing() {
    let (_, h) = shadow_fixture(DISPATCHER, "    if is_quit(key) { return Ok(()); }");
    assert!(shadowed(&tree(&[]), &h).is_empty());
    let unread = Tree { entries: vec![Entry { path: "keys.rs".into(), text: None }] };
    assert!(shadowed(&unread, &h).is_empty());
}

#[test]
fn extensions_are_read_off_the_file_name() {
    assert_eq!(extension("src/a.tar.gz"), "gz");
    assert_eq!(extension("a.b/c"), "");
    assert_eq!(extension(".gitignore"), "");
    assert_eq!(extension("dir/.x.rs"), "rs");
    assert_eq!(extension("dir/a.rs/"), "rs");
    assert_eq!(extension("a/.."), "");
    assert_eq!(extension(""), "");
}

#[test]
fn keywords_match_on_word_boundaries() {
    assert!(has_word("    return Ok(());", "return"));
    assert!(!has_word("the call returns early", "return"));
    assert!(!has_word("let ctx = context();", "next"));
}

#[test]
fn letters_beyond_ascii_are_part_of_words() {
    assert!(!has_word("éreturn x", "return"));
    assert!(has_word("— return x", "return"));
    assert!(!has_word("return٣", "return"));
}

#[test]
fn the_new_side_start_is_read_from_the_header() {
    assert_eq!(new_start("@@ -12,3 +88,9 @@"), Some(88));
    assert_eq!(new_start("@@ -1,1 +5,2 @@ fn alpha()"), Some(5));
    assert_eq!(new_start("@@ nothing @@"), None);
    assert_eq!(new_start("@@ -1 +x @@"), None);
    assert_eq!(new_start("@@ -1 +99999999999999999999999 @@"), None);
}

#[test]
fn does_not_repeat_a_symbol() {
    let h = hunks("+fn alpha() {}\n+fn alpha() {}\n");
    assert_eq!(changed_symbols(&h).len(), 1);
}

#[test]
fn at_most_twelve_symbols_and_none_of_them_short() {
    let many: String = (10..30).map(|i| format!("+fn symbol{i}() {{}}\n")).collect();
    let s = changed_symbols(&hunks(&many));
    assert_eq!(s.len(), 12);
    assert_eq!(s[0], "symbol10");
    assert!(changed_symbols(&hunks("+fn ab() {}\n")).is_empty());
}

#[test]
fn call_sites_leave_out_the_changed_files() {
    let h = hunks("+fn retry_all() {}\n");
    let out = call_sites(
        &h,
        &grep("retry_all", "src/sync.rs:1:fn retry_all() {}\nsrc/main.rs:9:    retry_all();\n"),
    );
    assert_eq!(out, vec!["# call sites for `retry_all`", "src/main.rs:9:    retry_all();"]);
    assert!(call_sites(&h, &grep("retry_all", "src/sync.rs:1:x\n")).is_empty());
    assert!(call_sites(&h, &[Grep { symbol: "retry_all".into(), out: None }]).is_empty());
    assert!(call_sites(&h, &[]).is_empty());
}

#[test]
fn a_dev_script_is_how_the_program_starts() {
    let t = tree(&[("package.json", r#"{"scripts": {"dev": "vite", "test": "vitest"}}"#)]);
    assert_eq!(run_invocation(&t).as_deref(), Some("npm run dev"));
}

/// The test command is the thing that gets run instead of the program, so a project with
/// only a test script has no run invocation at all.
#[test]
fn a_test_script_alone_is_not_a_run_invocation() {
    let t = tree(&[("package.json", r#"{"scripts": {"test": "vitest"}}"#)]);
    assert_eq!(run_invocation(&t), None);
}

#[test]
fn a_procfile_process_starts_the_program() {
    let t = tree(&[("Procfile", "web: bin/rails server -p 3000\nworker: bundle exec sidekiq\n")]);
    assert_eq!(run_invocation(&t).as_deref(), Some("bin/rails server -p 3000"));
}

#[test]
fn a_justfile_run_target_starts_the_program() {
    let t = tree(&[("justfile", "test:\n    cargo test\nserve:\n    cargo run\n")]);
    assert_eq!(run_invocation(&t).as_deref(), Some("just serve"));
}

#[test]
fn a_crate_runs_by_its_binary_name() {
    let t = tree(&[("Cargo.toml", "[package]\nname = \"shipgate\"\nversion = \"0.1.0\"\n")]);
    assert_eq!(run_invocation(&t).as_deref(), Some("cargo run --bin shipgate"));
}

#[test]
fn an_explicit_bin_name_wins_over_the_package_name() {
    let t = tree(&[(
        "Cargo.toml",
        "[package]\nname = \"the-crate\"\n\n[[bin]]\nname = \"the-tool\"\npath = \"src/main.rs\"\n",
    )]);
    assert_eq!(run_invocation(&t).as_deref(), Some("cargo run --bin the-tool"));
}

#[test]
fn a_readme_usage_block_is_the_last_resort() {
    let t = tree(&[(
        "README.md",
        "# Thing\n\nWhat it is.\n\n## Usage\n\n```\n$ thing serve --port 8080\n```\n",
    )]);
    assert_eq!(run_invocation(&t).as_deref(), Some("thing serve --port 8080"));
}

/// The first fenced block in a readme is as often an install line as a way to run the thing,
/// so a heading has to vouch for it.
#[test]
fn a_readme_block_under_no_usage_heading_is_not_taken() {
    let t = tree(&[("README.md", "# Thing\n\n## Install\n\n```\ncargo install thing\n```\n")]);
    assert_eq!(run_invocation(&t), None);
}

#[test]
fn a_repo_with_nothing_runnable_has_no_invocation() {
    let t = tree(&[("notes.txt", "nothing here")]);
    assert_eq!(run_invocation(&t), None);
}

#[test]
fn a_package_description_that_is_no_json_names_no_script() {
    let t = tree(&[("package.json", "{\"scripts\": {\"dev\": ")]);
    assert_eq!(run_invocation(&t), None);
    assert_eq!(test_command(&t), None);
    let t = tree(&[("package.json", "{\"scripts\": [\"dev\"]}")]);
    assert_eq!(run_invocation(&t), None);
    let t = tree(&[("package.json", "{\"scripts\": {\"start\": \"x\"}}")]);
    assert_eq!(run_invocation(&t).as_deref(), Some("npm run start"));
}

#[test]
fn the_test_command_follows_the_project() {
    let path = |p: &str| Entry { path: p.to_string(), text: None };
    let rails = Tree { entries: vec![path("bin/rails"), path("spec")] };
    assert_eq!(test_command(&rails).as_deref(), Some("bundle exec rspec"));
    let rails = Tree { entries: vec![path("bin/rails"), path("Cargo.toml")] };
    assert_eq!(test_command(&rails).as_deref(), Some("bin/rails test"));
    let cargo = tree(&[("Cargo.toml", ""), ("justfile", "test:\n")]);
    assert_eq!(test_command(&cargo).as_deref(), Some("cargo test"));
    let just = tree(&[("justfile", "test:\n"), ("Makefile", "test:\n")]);
    assert_eq!(test_command(&just).as_deref(), Some("just test"));
    let just = tree(&[("justfile", "build:\n"), ("Makefile", "test:\n")]);
    assert_eq!(test_command(&just), None);
    let make = tree(&[("Makefile", "all:\ntest: all\n")]);
    assert_eq!(test_command(&make).as_deref(), Some("make test"));
    let npm = tree(&[("package.json", r#"{"scripts": {"test": "vitest"}}"#)]);
    assert_eq!(test_command(&npm).as_deref(), Some("npm test"));
    assert_eq!(choose_test_command(&npm, false), None);
    assert_eq!(choose_invocation(&npm, true, true).as_deref(), Some("npm run dev"));
}

#[test]
fn the_route_that_dispatches_to_a_changed_symbol_is_a_surface() {
    let h = parse_diff(
        "diff --git a/src/handlers.rs b/src/handlers.rs\n@@ -1,1 +1,2 @@\n+pub fn refund_order() {}\n",
    );
    let found = grep(
        "refund_order",
        "src/handlers.rs:1:pub fn refund_order() {}\nsrc/router.rs:1:    router.route(\"/refunds\", post(refund_order));\n",
    );
    let out = surfaces(&h, &found).join("\n");
    assert!(out.contains("refund_order"), "the symbol is missing: {out}");
    assert!(out.contains("src/router.rs"), "the route is missing: {out}");
}

/// The definition is where the symbol lives, not a way to reach it.
#[test]
fn the_definition_is_not_offered_as_a_surface() {
    let h = parse_diff(
        "diff --git a/src/commands.rs b/src/commands.rs\n@@ -1,1 +1,2 @@\n+pub fn run_command(path: &str) {}\n",
    );
    let found = grep("run_command", "src/commands.rs:1:pub fn run_command(path: &str) {}\n");
    assert!(surfaces(&h, &found).is_empty());
}

/// Pure internals have no surface, and saying so is the point: the kind is skipped rather
/// than invented.
#[test]
fn a_symbol_nothing_dispatches_to_has_no_surface() {
    let h = parse_diff(
        "diff --git a/src/math.rs b/src/math.rs\n@@ -1,1 +1,2 @@\n+pub fn normalise_ratio(n: f64) -> f64 { n }\n",
    );
    let found = grep(
        "normalise_ratio",
        "src/math.rs:1:pub fn normalise_ratio(n: f64) -> f64 { n }\nsrc/other.rs:1:    let x = normalise_ratio(2.0);\n",
    );
    assert!(surfaces(&h, &found).is_empty());
}

/// A path like `src/routes/mod.rs` would otherwise vouch for every hit in the file, since it
/// is written in front of every line.
#[test]
fn a_marker_in_the_path_does_not_make_a_surface() {
    let h = parse_diff(
        "diff --git a/src/routes/calc.rs b/src/routes/calc.rs\n@@ -1,1 +1,2 @@\n+pub fn compute_total() {}\n",
    );
    let found = grep(
        "compute_total",
        "src/routes/calc.rs:1:pub fn compute_total() {}\nsrc/routes/helpers.rs:1:    let t = compute_total();\n",
    );
    assert!(surfaces(&h, &found).is_empty());
}

#[test]
fn surface_markers_match_on_word_boundaries() {
    assert!(has_marker("a.rs:3:    router.get(\"/x\", h);", &["get"]));
    assert!(!has_marker("a.rs:3:    let t = target();", &["get"]));
}

#[test]
fn only_the_listed_paths_are_read() {
    let h = hunks("+let x = 1;\n");
    let paths = paths_to_read(&h);
    assert_eq!(paths.len(), 10);
    assert_eq!(paths[0], "package.json");
    assert_eq!(paths[9], "src/sync.rs");
    let bare = tree(&[("Cargo.toml", "[package]\nname = \"x\"\n")]);
    let more = tree(&[
        ("Cargo.toml", "[package]\nname = \"x\"\n"),
        ("setup.py", "run:\n"),
        ("docs/README.md", "## Usage\n```sh\nother\n```\n"),
    ]);
    assert_eq!(test_command(&bare), test_command(&more));
    assert_eq!(run_invocation(&bare), run_invocation(&more));
    assert_eq!(run_invocation(&bare).as_deref(), Some("cargo run --bin x"));
}
