use shipgate::dash::{collect, root_candidates, roots, sort_rows, Found, Row, Status};
use shipgate::db::{
    all_gates, insert_questions, record_attempt, set_gate_state, upsert_gate, NewGate, NewQuestion,
    Records,
};
use shipgate::gh::{
    my_open_prs, pr_body, pr_commits, pr_for_branch, pr_ready, pr_set_body, repo_slug,
    says_no_pull_request, PrBrief,
};
use shipgate::tui::dash::{
    listing_line, row_cells, short_repo, status_style, truncate, Chosen, Dash, DashAction,
};
use shipgate::tui::keys::{Code, Key};
use shipgate::tui::quiz::Tone;

fn row(repo: &str, pr: u64, status: Status) -> Row {
    Row {
        repo: repo.into(),
        path: "/tmp".into(),
        pr_number: pr,
        branch: "b".into(),
        title: "t".into(),
        status,
        coverage: None,
    }
}

/// The dashboard is only worth opening if what it asks of you is at the top.
#[test]
fn work_that_wants_you_sorts_above_finished_work() {
    let rows = sort_rows(vec![
        row("a/x", 1, Status::Cleared),
        row("a/x", 2, Status::Ungated),
        row("a/x", 3, Status::Trivial),
        row("a/x", 4, Status::InProgress { done: 1, total: 4 }),
    ]);
    let order: Vec<u64> = rows.iter().map(|r| r.pr_number).collect();
    assert_eq!(order, vec![2, 4, 1, 3]);
}

#[test]
fn rows_sort_by_repository_then_number_and_level_rows_keep_their_order() {
    let mut first = row("b/x", 1, Status::Ungated);
    first.title = "first".into();
    let mut second = row("b/x", 1, Status::Ungated);
    second.title = "second".into();
    let rows = sort_rows(vec![
        row("b/x", 10, Status::Ungated),
        first,
        row("a/z", 7, Status::Ungated),
        second,
        row("b/x", 9, Status::Ungated),
        row("a", 3, Status::Ungated),
    ]);
    let order: Vec<(&str, u64, &str)> =
        rows.iter().map(|r| (r.repo.as_str(), r.pr_number, r.title.as_str())).collect();
    assert_eq!(
        order,
        vec![
            ("a", 3, "t"),
            ("a/z", 7, "t"),
            ("b/x", 1, "first"),
            ("b/x", 1, "second"),
            ("b/x", 9, "t"),
            ("b/x", 10, "t"),
        ]
    );
}

#[test]
fn only_unfinished_work_asks_anything_of_you() {
    assert!(Status::Ungated.needs_you());
    assert!(Status::InProgress { done: 0, total: 3 }.needs_you());
    assert!(!Status::Cleared.needs_you());
    assert!(!Status::Trivial.needs_you());
}

#[test]
fn progress_is_reported_as_a_fraction() {
    assert_eq!(Status::InProgress { done: 2, total: 4 }.label(), "2/4 answered");
    assert_eq!(Status::Trivial.label(), "nothing to ask");
}

fn gate<'a>(pr: u64, path: &'a str) -> NewGate<'a> {
    NewGate {
        repo: "o/r",
        path,
        pr_number: pr,
        branch: "b",
        base_ref: "origin/develop",
        base_sha: "a",
        head_sha: "b",
        diff: "d",
        hunks_total: 1,
        hunks_ai: 1,
        authorship: "trailers",
        state: "open",
    }
}

fn brief(number: u64) -> PrBrief {
    PrBrief {
        number,
        title: format!("title {number}"),
        is_draft: false,
        head_ref_name: "head".into(),
        updated_at: String::new(),
    }
}

#[test]
fn what_is_found_becomes_rows_and_problems() {
    let mut records = Records::new();
    upsert_gate(&mut records, &gate(1, "/made/here"), "t");
    upsert_gate(&mut records, &gate(2, "/gone"), "t");
    upsert_gate(&mut records, &gate(3, ""), "t");
    upsert_gate(&mut records, &gate(9, ""), "t");
    let ask = |k: &'static str| NewQuestion {
        kind: k,
        file: "f",
        anchor: "a",
        text: "t",
        reference: "r",
        hints: &[],
    };
    insert_questions(&mut records, 1, &[ask("x"), ask("y")], "t").unwrap();
    record_attempt(&mut records, 1, "answer", "b", 0, "partial", 6, "f", "m", "t").unwrap();
    set_gate_state(&mut records, 2, "cleared", "t");
    set_gate_state(&mut records, 3, "trivial", "t");
    let found = vec![
        Found { root: "/bad".into(), repo: Err("no repository".into()), prs: Ok(vec![]) },
        Found {
            root: "/root".into(),
            repo: Ok("o/r".into()),
            prs: Ok(vec![brief(3), brief(2), brief(1), brief(4)]),
        },
        Found { root: "/off".into(), repo: Ok("o/off".into()), prs: Err("offline".into()) },
    ];
    let dirs = vec!["/made/here".to_string()];
    let (rows, problems) = collect(&mut records, &found, &dirs, "later");
    assert_eq!(problems, vec!["/bad: no repository", "o/off: offline"]);
    let seen: Vec<(u64, String, &str, Option<&str>)> = rows
        .iter()
        .map(|r| (r.pr_number, r.status.label(), r.path.as_str(), r.coverage.as_deref()))
        .collect();
    assert_eq!(
        seen,
        vec![
            (1, "1/2 answered".to_string(), "/made/here", Some("2q · 0/1 hunks")),
            (4, "no gate".to_string(), "/root", None),
            (2, "cleared".to_string(), "/root", Some("0q · 0/1 hunks")),
            (3, "nothing to ask".to_string(), "/root", None),
        ]
    );
    assert!(records.gates[3].superseded_at.is_some(), "the closed one is off the dashboard");
    let watched = vec!["/watched".to_string()];
    let mut all = root_candidates(&watched, &all_gates(&records));
    assert_eq!(all[0], "/watched");
    all.sort();
    assert_eq!(all, vec!["/gone", "/made/here", "/watched"]);
}

fn key(code: Code) -> Key {
    Key { code, ctrl: false }
}

#[test]
fn the_list_is_walked_and_a_row_is_chosen() {
    let mut d = Dash {
        rows: vec![row("o/r", 1, Status::Ungated), row("o/r", 2, Status::Cleared)],
        problems: vec![],
        selected: 0,
    };
    assert_eq!(d.title(), " shipgate · 1 waiting on you · 2 PRs ");
    assert_eq!(d.footer(), " enter quiz · r refresh · q quit ");
    assert!(matches!(d.on_key(key(Code::Up)), DashAction::Stay));
    assert_eq!(d.selected, 0);
    d.on_key(key(Code::Char('j')));
    d.on_key(key(Code::Down));
    assert_eq!(d.selected, 1);
    match d.on_key(key(Code::Enter)) {
        DashAction::Done(Chosen::Quiz(r)) => assert_eq!(r.pr_number, 2),
        other => panic!("{other:?}"),
    }
    assert!(matches!(d.on_key(key(Code::Char('r'))), DashAction::Reload));
    d.reloaded(vec![row("o/r", 1, Status::Ungated)], vec!["gone".to_string()]);
    assert_eq!(d.selected, 0);
    assert_eq!(d.footer(), " gone · enter quiz · r refresh · q quit ");
    assert!(matches!(d.on_key(key(Code::Esc)), DashAction::Done(Chosen::Quit)));
    assert!(matches!(d.on_key(key(Code::Char('q'))), DashAction::Done(Chosen::Quit)));
    let c = Key { code: Code::Char('c'), ctrl: true };
    assert!(matches!(d.on_key(c), DashAction::Done(Chosen::Quit)));
    d.reloaded(vec![], vec![]);
    assert!(matches!(d.on_key(key(Code::Enter)), DashAction::Stay));
}

#[test]
fn a_row_is_laid_out_in_columns() {
    let mut r = row("owner/a-repo", 12, Status::InProgress { done: 1, total: 3 });
    r.title = "A title that is longer than thirty-seven characters".into();
    r.coverage = Some("3q · 1/2 hunks".into());
    assert_eq!(
        row_cells(&r),
        vec![
            "a-repo          ",
            "#12    ",
            "A title that is longer than thirty-s… ",
            "1/3 answered   ",
            "3q · 1/2 hunks",
        ]
    );
    assert_eq!(
        listing_line(&r),
        "* a-repo           #12     A title that is longer than thirty-seven 1/3 answered    3q · 1/2 hunks"
    );
    assert_eq!(truncate("abc", 3), "abc");
    assert_eq!(truncate("abcd", 3), "ab…");
    assert_eq!(truncate("abcd", 0), "…");
    assert_eq!(short_repo("a/b/c"), "c");
    assert_eq!(status_style(&Status::Ungated).tone, Tone::Yellow);
    assert_eq!(status_style(&Status::InProgress { done: 0, total: 1 }).tone, Tone::Cyan);
    assert!(status_style(&Status::Cleared).dim);
}

#[test]
fn the_forge_is_asked_in_so_many_words() {
    assert_eq!(repo_slug(), vec!["repo", "view", "--json", "nameWithOwner"]);
    assert_eq!(pr_for_branch("b")[2], "b");
    assert_eq!(pr_ready(12), vec!["pr", "ready", "12"]);
    assert_eq!(pr_body(0), vec!["pr", "view", "0", "--json", "body"]);
    assert_eq!(pr_set_body(1, "f.md"), vec!["pr", "edit", "1", "--body-file", "f.md"]);
    assert_eq!(pr_commits(18446744073709551615)[2], "18446744073709551615");
    assert_eq!(my_open_prs()[3], "@me");
    assert!(says_no_pull_request("gh: no pull requests found for branch"));
    assert!(!says_no_pull_request("network is down"));
}

#[test]
fn roots_are_sorted_as_paths_and_each_is_looked_at_once() {
    let names = [
        "/a-b", "/a/b", "/a", "/gone", "/a/./b/", "rel", "./rel", "../up", "/a//b", "-x", "/",
    ];
    let candidates: Vec<String> = names.iter().map(|p| p.to_string()).collect();
    let present: Vec<bool> = names.iter().map(|p| *p != "/gone").collect();
    let expected: Vec<String> = {
        let mut seen = std::collections::BTreeSet::new();
        for (p, there) in names.iter().zip(&present) {
            if *there {
                seen.insert(std::path::PathBuf::from(p));
            }
        }
        seen.into_iter().map(|p| p.to_string_lossy().into_owned()).collect()
    };
    assert_eq!(roots(&candidates, &present), expected);
    assert_eq!(expected, vec!["/", "/a", "/a/b", "/a-b", "./rel", "../up", "-x", "rel"]);
    assert!(roots(&candidates, &[]).is_empty());
}
