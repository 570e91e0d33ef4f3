//! Discovery for the dashboard: what is waiting on you, across every repository.
//!
//! A quiz is anchored to a work tree; this is not. Rows come from two places: gates
//! already recorded, which carry their own path, and open pull requests in watched
//! repositories that have never been gated.

use vstd::prelude::*;
use vstd::string::StringExecFns;
use crate::db::{
    gate_for_pr, live_gate, prune_closed, pruned, questions_for, questions_in, question_models,
    Gate, GateModel, QuestionModel, Records, RecordsModel, gate_models,
};
use crate::gh::PrBrief;
use crate::llm::generate::optional_text;
use crate::text::chars::same;
use crate::text::number::{decimal, show_signed, show_usize, signed_decimal};
use crate::text::order::{before, before_is_total, before_is_transitive, is_before};
use crate::text::path::{
    components, is_path_before, path_before, path_before_is_total, path_before_is_transitive,
    split_path,
};
use crate::text::split::{listed, texts, texts_push};

pub mod laws;

verus! {

/// Where a pull request stands.
#[derive(Debug, Clone, Copy, PartialEq, Eq, Structural)]
pub enum Status {
    /// A gate exists and still has questions outstanding.
    InProgress { done: usize, total: usize },
    /// Every question passed.
    Cleared,
    /// Triage or the generator decided there was nothing worth asking.
    Trivial,
    /// An open pull request with no gate at all.
    Ungated,
}

impl Status {
    /// How a status reads.
    pub open spec fn text(self) -> Seq<char> {
        match self {
            Status::InProgress { done, total } => decimal(done as nat) + "/"@ + decimal(
                total as nat,
            ) + " answered"@,
            Status::Cleared => "cleared"@,
            Status::Trivial => "nothing to ask"@,
            Status::Ungated => "no gate"@,
        }
    }

    /// How a status reads.
    pub fn label(&self) -> (r: String)
        ensures
            r@ == self.text(),
    {
        match self {
            Status::InProgress { done, total } => show_usize(*done).concat("/").concat(
                show_usize(*total).as_str(),
            ).concat(" answered"),
            Status::Cleared => "cleared".to_owned(),
            Status::Trivial => "nothing to ask".to_owned(),
            Status::Ungated => "no gate".to_owned(),
        }
    }

    /// Whether something is actually asked of you.
    pub open spec fn asks(self) -> bool {
        self is InProgress || self is Ungated
    }

    /// Whether something is actually asked of you. The dashboard sorts by this: a list
    /// where finished work sits alongside outstanding work is a list you stop reading.
    pub fn needs_you(&self) -> (r: bool)
        ensures
            r == self.asks(),
    {
        matches!(self, Status::InProgress { .. } | Status::Ungated)
    }
}

/// A row of the dashboard.
#[derive(Debug)]
pub struct Row {
    pub repo: String,
    pub path: String,
    pub pr_number: u64,
    pub branch: String,
    pub title: String,
    pub status: Status,
    pub coverage: Option<String>,
}

impl Clone for Row {
    fn clone(&self) -> (r: Self)
        ensures
            r == *self,
    {
        Row {
            repo: self.repo.clone(),
            path: self.path.clone(),
            pr_number: self.pr_number,
            branch: self.branch.clone(),
            title: self.title.clone(),
            status: self.status,
            coverage: match &self.coverage {
                Some(c) => Some(c.clone()),
                None => None,
            },
        }
    }
}

/// A row as its texts and numbers.
pub struct RowModel {
    pub repo: Seq<char>,
    pub path: Seq<char>,
    pub pr_number: u64,
    pub branch: Seq<char>,
    pub title: Seq<char>,
    pub status: Status,
    pub coverage: Option<Seq<char>>,
}

impl View for Row {
    type V = RowModel;

    open spec fn view(&self) -> RowModel {
        RowModel {
            repo: self.repo@,
            path: self.path@,
            pr_number: self.pr_number,
            branch: self.branch@,
            title: self.title@,
            status: self.status,
            coverage: optional_text(self.coverage),
        }
    }
}

/// The texts and numbers of a list of rows.
pub open spec fn dash_rows(rows: Seq<Row>) -> Seq<RowModel> {
    Seq::new(rows.len(), |i: int| rows[i]@)
}

// ---------------------------------------------------------------- order

/// Whether a row comes before another: work that wants you first; within that by
/// repository, and then by number, the lowest being the oldest and the one most worth
/// clearing.
pub open spec fn row_before(a: RowModel, b: RowModel) -> bool {
    if a.status.asks() != b.status.asks() {
        a.status.asks()
    } else if a.repo != b.repo {
        before(a.repo, b.repo)
    } else {
        a.pr_number < b.pr_number
    }
}

/// Whether rows stand in order.
pub open spec fn in_order(rows: Seq<RowModel>) -> bool {
    forall|i: int, j: int|
        0 <= i < j < rows.len() ==> !row_before(#[trigger] rows[j], #[trigger] rows[i])
}

/// Whether a row has the place of `k` in the order.
pub open spec fn level_with(k: RowModel) -> spec_fn(RowModel) -> bool {
    |r: RowModel|
        r.status.asks() == k.status.asks() && r.repo == k.repo && r.pr_number == k.pr_number
}

/// Of two rows one comes before the other, unless they are level.
pub proof fn rows_are_ordered(a: RowModel, b: RowModel)
    ensures
        row_before(a, b) || row_before(b, a) || level_with(b)(a),
        !(row_before(a, b) && row_before(b, a)),
        level_with(b)(a) ==> !row_before(a, b) && !row_before(b, a),
{
    before_is_total(a.repo, b.repo);
}

proof fn row_before_is_transitive(a: RowModel, b: RowModel, c: RowModel)
    requires
        row_before(a, b),
        row_before(b, c),
    ensures
        row_before(a, c),
{
    if a.status.asks() == b.status.asks() && b.status.asks() == c.status.asks() {
        if a.repo != b.repo && b.repo != c.repo {
            before_is_transitive(a.repo, b.repo, c.repo);
            before_is_total(a.repo, c.repo);
        }
    }
}

fn comes_before(a: &Row, b: &Row) -> (r: bool)
    ensures
        r == row_before(a@, b@),
{
    let x = a.status.needs_you();
    let y = b.status.needs_you();
    if x != y {
        x
    } else if !same(a.repo.as_str(), b.repo.as_str()) {
        is_before(a.repo.as_str(), b.repo.as_str())
    } else {
        a.pr_number < b.pr_number
    }
}

/// Puts a row where it belongs, behind those that it is level with.
fn insert_row(rows: &mut Vec<Row>, row: Row)
    requires
        in_order(dash_rows(old(rows)@)),
    ensures
        in_order(dash_rows(final(rows)@)),
        dash_rows(final(rows)@).to_multiset() == dash_rows(old(rows)@).to_multiset().insert(row@),
        forall|k: RowModel|
            dash_rows(final(rows)@).filter(#[trigger] level_with(k)) == dash_rows(
                old(rows)@,
            ).push(row@).filter(level_with(k)),
{
    let ghost start = dash_rows(rows@);
    let ghost x = row@;
    let mut i: usize = rows.len();
    while i > 0 && comes_before(&row, &rows[i - 1])
        invariant
            i <= rows@.len(),
            start == dash_rows(rows@),
            x == row@,
            forall|j: int| i <= j < start.len() ==> row_before(x, #[trigger] start[j]),
        decreases i,
    {
        assert(start[i - 1] == rows@[i - 1]@);
        i -= 1;
    }
    let ghost at = i as int;
    proof {
        if at > 0 {
            assert(start[at - 1] == rows@[at - 1]@);
        }
    }
    rows.insert(i, row);
    proof {
        let end = dash_rows(rows@);
        assert(end =~= start.insert(at, x));
        vstd::seq_lib::to_multiset_insert(start, at, x);
        assert forall|a: int, b: int| 0 <= a < b < end.len() implies !row_before(
            #[trigger] end[b],
            #[trigger] end[a],
        ) by {
            let p = if a < at { a } else { a - 1 };
            let q = if b < at { b } else { b - 1 };
            if a != at && b != at {
                assert(!row_before(start[q], start[p]));
            } else if a == at {
                rows_are_ordered(x, start[q]);
            } else {
                if row_before(x, start[a]) {
                    if a < at - 1 {
                        assert(!row_before(start[at - 1], start[a]));
                        rows_are_ordered(start[a], start[at - 1]);
                        if row_before(start[a], start[at - 1]) {
                            row_before_is_transitive(x, start[a], start[at - 1]);
                        } else {
                            assert(level_with(start[at - 1])(start[a]));
                            level_rows_order_alike(x, start[a], start[at - 1]);
                        }
                    }
                }
            }
        }
        assert forall|k: RowModel| end.filter(#[trigger] level_with(k)) == start.push(x).filter(
            level_with(k),
        ) by {
            insertion_keeps_levels(start, at, x, k);
        }
    }
}

proof fn level_rows_order_alike(x: RowModel, a: RowModel, b: RowModel)
    requires
        level_with(b)(a),
    ensures
        row_before(x, a) == row_before(x, b),
{
}

proof fn insertion_keeps_levels(s: Seq<RowModel>, at: int, x: RowModel, k: RowModel)
    requires
        0 <= at <= s.len(),
        forall|j: int| at <= j < s.len() ==> row_before(x, #[trigger] s[j]),
    ensures
        s.insert(at, x).filter(level_with(k)) == s.push(x).filter(level_with(k)),
{
    let p = level_with(k);
    let front = s.take(at);
    let back = s.skip(at);
    assert(s =~= front + back);
    assert(s.insert(at, x) =~= front.push(x) + back);
    Seq::filter_distributes_over_add(front, back, p);
    Seq::filter_distributes_over_add(front.push(x), back, p);
    front.lemma_filter_push(x, p);
    s.lemma_filter_push(x, p);
    if p(x) {
        assert forall|j: int| 0 <= j < back.len() implies !p(#[trigger] back[j]) by {
            assert(back[j] == s[at + j]);
            assert(row_before(x, s[at + j]));
            if p(back[j]) {
                assert(level_with(x)(back[j]));
                rows_are_ordered(back[j], x);
            }
        }
        back.lemma_all_neg_filter_empty(p);
        assert(back.filter(p) =~= Seq::empty());
        assert(front.filter(p).push(x) + back.filter(p) =~= (front.filter(p) + back.filter(p)).push(
            x,
        ));
    }
}

/// Puts rows in order. Rows that are level keep the order they had.
pub fn sort_rows(rows: Vec<Row>) -> (r: Vec<Row>)
    ensures
        in_order(dash_rows(r@)),
        dash_rows(r@).to_multiset() == dash_rows(rows@).to_multiset(),
        forall|k: RowModel|
            dash_rows(r@).filter(#[trigger] level_with(k)) == dash_rows(rows@).filter(level_with(k)),
{
    let ghost all = dash_rows(rows@);
    let mut rest = rows;
    let mut out: Vec<Row> = Vec::new();
    let ghost mut n: int = 0;
    proof {
        assert(all.take(0) =~= dash_rows(out@));
        assert(dash_rows(rest@) =~= all.skip(0));
    }
    while rest.len() > 0
        invariant
            0 <= n,
            n + rest@.len() == all.len(),
            dash_rows(rest@) == all.skip(n),
            in_order(dash_rows(out@)),
            dash_rows(out@).to_multiset() == all.take(n).to_multiset(),
            forall|k: RowModel|
                dash_rows(out@).filter(#[trigger] level_with(k)) == all.take(n).filter(
                    level_with(k),
                ),
        decreases rest@.len(),
    {
        let ghost before_out = dash_rows(out@);
        let ghost left = rest@;
        let row = rest.remove(0);
        let ghost x = row@;
        proof {
            assert(dash_rows(left)[0] == x);
            assert(all.skip(n)[0] == all[n]);
            assert(all[n] == x);
            assert(all.take(n + 1) =~= all.take(n).push(x));
            vstd::seq_lib::to_multiset_build(all.take(n), x);
            assert(dash_rows(rest@) =~= all.skip(n + 1)) by {
                assert forall|j: int| 0 <= j < rest@.len() implies dash_rows(rest@)[j]
                    == all.skip(n + 1)[j] by {
                    assert(rest@[j] == left[j + 1]);
                    assert(dash_rows(left)[j + 1] == all.skip(n)[j + 1]);
                }
            }
        }
        insert_row(&mut out, row);
        proof {
            assert forall|k: RowModel| dash_rows(out@).filter(#[trigger] level_with(k)) == all.take(
                n + 1,
            ).filter(level_with(k)) by {
                before_out.lemma_filter_push(x, level_with(k));
                all.take(n).lemma_filter_push(x, level_with(k));
            }
            n = n + 1;
        }
    }
    proof {
        assert(all.take(n) =~= all);
    }
    out
}

/// In order, everything that wants you stands above everything that does not.
pub proof fn work_that_wants_you_comes_first(rows: Seq<RowModel>, i: int, j: int)
    requires
        in_order(rows),
        0 <= i < rows.len(),
        0 <= j < rows.len(),
        rows[i].status.asks(),
        !rows[j].status.asks(),
    ensures
        i < j,
{
    if j < i {
        assert(!row_before(rows[i], rows[j]));
    }
}

// ---------------------------------------------------------------- rows

/// What a gate covers, in short.
pub open spec fn short_coverage(r: RecordsModel, g: GateModel) -> Seq<char> {
    decimal(questions_in(r.questions, g.id).len()) + "q · "@ + signed_decimal(g.hunks_covered as int)
        + "/"@ + signed_decimal(g.hunks_ai as int) + " hunks"@
}

/// How many questions are passed.
pub open spec fn passed_count(qs: Seq<QuestionModel>) -> nat
    decreases qs.len(),
{
    if qs.len() == 0 {
        0
    } else {
        passed_count(qs.drop_last()) + if qs.last().status == "passed"@ {
            1nat
        } else {
            0nat
        }
    }
}

/// Where the pull request of a gate stands.
pub open spec fn status_of_gate(r: RecordsModel, gate: Option<GateModel>) -> Status {
    match gate {
        Some(g) => if g.state == "cleared"@ {
            Status::Cleared
        } else if g.state == "trivial"@ {
            Status::Trivial
        } else {
            let qs = questions_in(r.questions, g.id);
            Status::InProgress { done: passed_count(qs) as usize, total: qs.len() as usize }
        },
        None => Status::Ungated,
    }
}

/// What is said of the coverage of a gate: nothing where there was nothing to ask.
pub open spec fn coverage_of_gate(r: RecordsModel, gate: Option<GateModel>) -> Option<Seq<char>> {
    match gate {
        Some(g) => if g.state == "trivial"@ {
            None
        } else {
            Some(short_coverage(r, g))
        },
        None => None,
    }
}

/// Where the quiz on a pull request runs: where its gate was made, if that is a directory
/// still, and otherwise where it was found.
pub open spec fn path_of_row(gate: Option<GateModel>, root: Seq<char>, dirs: Seq<Seq<char>>) -> Seq<
    char,
> {
    match gate {
        Some(g) => if dirs.contains(g.path) {
            g.path
        } else {
            root
        },
        None => root,
    }
}

/// The row of a pull request.
pub open spec fn row_of_pr(
    r: RecordsModel,
    repo: Seq<char>,
    root: Seq<char>,
    pr: PrBrief,
    dirs: Seq<Seq<char>>,
) -> RowModel {
    let gate = live_gate(r.gates, repo, pr.number);
    RowModel {
        repo,
        path: path_of_row(gate, root, dirs),
        pr_number: pr.number,
        branch: pr.head_ref_name@,
        title: pr.title@,
        status: status_of_gate(r, gate),
        coverage: coverage_of_gate(r, gate),
    }
}

fn coverage_of(records: &Records, g: &Gate) -> (r: String)
    ensures
        r@ == short_coverage(records@, g@),
{
    let qs = questions_for(records, g.id);
    assert(question_models(qs@).len() == qs@.len());
    show_usize(qs.len()).concat("q · ").concat(show_signed(g.hunks_covered).as_str()).concat(
        "/",
    ).concat(show_signed(g.hunks_ai).as_str()).concat(" hunks")
}

fn row_for(records: &Records, repo: &str, root: &str, pr: &PrBrief, dirs: &[String]) -> (r: Row)
    ensures
        r@ == row_of_pr(records@, repo@, root@, *pr, texts(dirs@)),
{
    let gate = gate_for_pr(records, repo, pr.number);
    proof {
        reveal_strlit("cleared");
        reveal_strlit("trivial");
        assert("cleared"@[0] != "trivial"@[0]);
    }
    let mut status = Status::Ungated;
    let mut coverage: Option<String> = None;
    let mut path = root.to_owned();
    if let Some(g) = &gate {
        if same(g.state.as_str(), "cleared") {
            status = Status::Cleared;
            coverage = Some(coverage_of(records, g));
        } else if same(g.state.as_str(), "trivial") {
            status = Status::Trivial;
        } else {
            let qs = questions_for(records, g.id);
            let ghost models = question_models(qs@);
            let mut done: usize = 0;
            let mut i: usize = 0;
            proof {
                assert(models.take(0) =~= Seq::empty());
            }
            while i < qs.len()
                invariant
                    i <= qs@.len(),
                    done <= i,
                    models == question_models(qs@),
                    done == passed_count(models.take(i as int)),
                decreases qs@.len() - i,
            {
                proof {
                    assert(models.take(i + 1).drop_last() =~= models.take(i as int));
                    assert(models.take(i + 1).last() == qs@[i as int]@);
                }
                if same(qs[i].status.as_str(), "passed") {
                    done += 1;
                }
                i += 1;
            }
            proof {
                assert(models.take(i as int) =~= models);
                assert(models.len() == qs@.len());
            }
            status = Status::InProgress { done, total: qs.len() };
            coverage = Some(coverage_of(records, g));
        }
        if listed(dirs, g.path.as_str()) {
            path = g.path.clone();
        }
    }
    Row {
        repo: repo.to_owned(),
        path,
        pr_number: pr.number,
        branch: pr.head_ref_name.clone(),
        title: pr.title.clone(),
        status,
        coverage,
    }
}

// ---------------------------------------------------------------- collecting

/// What was found in a directory: the name of its repository and the open pull requests
/// there, or why they could not be had.
pub struct Found {
    pub root: String,
    pub repo: Result<String, String>,
    pub prs: Result<Vec<PrBrief>, String>,
}

/// The numbers of pull requests.
pub open spec fn pr_numbers(prs: Seq<PrBrief>) -> Seq<u64> {
    Seq::new(prs.len(), |i: int| prs[i].number)
}

/// The record once a directory was looked at: gates whose pull request is no longer open
/// have nothing left to ask.
pub open spec fn records_after(r: RecordsModel, f: Found, now: Seq<char>) -> RecordsModel {
    match (f.repo, f.prs) {
        (Ok(repo), Ok(prs)) => pruned(r, repo@, pr_numbers(prs@), now),
        _ => r,
    }
}

/// The record once several directories were looked at.
pub open spec fn records_after_all(r: RecordsModel, found: Seq<Found>, now: Seq<char>) -> RecordsModel
    decreases found.len(),
{
    if found.len() == 0 {
        r
    } else {
        records_after(records_after_all(r, found.drop_last(), now), found.last(), now)
    }
}

/// The rows of a directory, given the record after it was looked at.
pub open spec fn rows_found(r: RecordsModel, f: Found, dirs: Seq<Seq<char>>) -> Seq<RowModel> {
    match (f.repo, f.prs) {
        (Ok(repo), Ok(prs)) => Seq::new(
            prs@.len(),
            |i: int| row_of_pr(r, repo@, f.root@, prs@[i], dirs),
        ),
        _ => Seq::empty(),
    }
}

/// The rows of several directories, in the order in which they were looked at.
pub open spec fn all_rows_found(
    r: RecordsModel,
    found: Seq<Found>,
    dirs: Seq<Seq<char>>,
    now: Seq<char>,
) -> Seq<RowModel>
    decreases found.len(),
{
    if found.len() == 0 {
        Seq::empty()
    } else {
        all_rows_found(r, found.drop_last(), dirs, now) + rows_found(
            records_after_all(r, found, now),
            found.last(),
            dirs,
        )
    }
}

/// What went wrong in a directory.
pub open spec fn problem_of(f: Found) -> Seq<Seq<char>> {
    match f.repo {
        Err(e) => seq![f.root@ + ": "@ + e@],
        Ok(repo) => match f.prs {
            Err(e) => seq![repo@ + ": "@ + e@],
            Ok(_) => Seq::empty(),
        },
    }
}

/// What went wrong in several directories.
pub open spec fn problems_of(found: Seq<Found>) -> Seq<Seq<char>>
    decreases found.len(),
{
    if found.len() == 0 {
        Seq::empty()
    } else {
        problems_of(found.drop_last()) + problem_of(found.last())
    }
}

/// What is waiting on you, and what went wrong on the way. Failures are reported rather than
/// fatal: one unreachable repository should not hide the others. `dirs` are the paths that
/// are directories.
pub fn collect(records: &mut Records, found: &[Found], dirs: &[String], now: &str) -> (r: (
    Vec<Row>,
    Vec<String>,
))
    ensures
        final(records)@ == records_after_all(old(records)@, found@, now@),
        old(records)@.wf() ==> final(records)@.wf(),
        in_order(dash_rows(r.0@)),
        ({
            let rows = all_rows_found(old(records)@, found@, texts(dirs@), now@);
            &&& dash_rows(r.0@).to_multiset() == rows.to_multiset()
            &&& forall|k: RowModel|
                dash_rows(r.0@).filter(#[trigger] level_with(k)) == rows.filter(level_with(k))
        }),
        texts(r.1@) == problems_of(found@),
{
    broadcast use texts_push;

    let ghost start = records@;
    let ghost ds = texts(dirs@);
    let mut rows: Vec<Row> = Vec::new();
    let mut problems: Vec<String> = Vec::new();
    let mut i: usize = 0;
    proof {
        assert(found@.take(0) =~= Seq::empty());
        assert(dash_rows(rows@) =~= Seq::empty());
        assert(texts(problems@) =~= Seq::empty());
    }
    while i < found.len()
        invariant
            i <= found@.len(),
            ds == texts(dirs@),
            records@ == records_after_all(start, found@.take(i as int), now@),
            start.wf() ==> records@.wf(),
            dash_rows(rows@) == all_rows_found(start, found@.take(i as int), ds, now@),
            texts(problems@) == problems_of(found@.take(i as int)),
        decreases found@.len() - i,
    {
        let f = &found[i];
        let ghost so_far = found@.take(i + 1);
        let ghost before_rows = dash_rows(rows@);
        let ghost before_problems = texts(problems@);
        proof {
            assert(so_far.drop_last() =~= found@.take(i as int));
            assert(so_far.last() == *f);
        }
        match &f.repo {
            Err(e) => {
                let problem = f.root.clone().concat(": ").concat(e.as_str());
                let ghost p = problem@;
                problems.push(problem);
                proof {
                    assert(texts(problems@) =~= before_problems + seq![p]);
                    assert(before_rows + rows_found(records@, *f, ds) =~= before_rows);
                }
            },
            Ok(repo) => {
                match &f.prs {
                    Err(e) => {
                        let problem = repo.clone().concat(": ").concat(e.as_str());
                        let ghost p = problem@;
                        problems.push(problem);
                        proof {
                            assert(texts(problems@) =~= before_problems + seq![p]);
                            assert(before_rows + rows_found(records@, *f, ds) =~= before_rows);
                        }
                    },
                    Ok(prs) => {
                        let open = numbers_of(prs);
                        let _removed = prune_closed(records, repo.as_str(), &open, now);
                        let ghost goal = rows_found(records@, *f, ds);
                        let mut k: usize = 0;
                        proof {
                            assert(before_rows + goal.take(0) =~= before_rows);
                        }
                        while k < prs.len()
                            invariant
                                k <= prs@.len(),
                                ds == texts(dirs@),
                                f.repo == Ok::<String, String>(*repo),
                                f.prs == Ok::<Vec<PrBrief>, String>(*prs),
                                goal == rows_found(records@, *f, ds),
                                dash_rows(rows@) == before_rows + goal.take(k as int),
                            decreases prs@.len() - k,
                        {
                            let row = row_for(
                                records,
                                repo.as_str(),
                                f.root.as_str(),
                                &prs[k],
                                dirs,
                            );
                            proof {
                                assert(goal[k as int] == row@);
                                assert(dash_rows(rows@.push(row)) =~= dash_rows(rows@).push(row@));
                                assert((before_rows + goal.take(k as int)).push(row@)
                                    =~= before_rows + goal.take(k + 1));
                            }
                            rows.push(row);
                            k += 1;
                        }
                        proof {
                            assert(goal.take(k as int) =~= goal);
                            assert(before_problems + problem_of(*f) =~= before_problems);
                        }
                    },
                }
            },
        }
        i += 1;
    }
    proof {
        assert(found@.take(i as int) =~= found@);
    }
    (sort_rows(rows), problems)
}

fn numbers_of(prs: &[PrBrief]) -> (r: Vec<u64>)
    ensures
        r@ == pr_numbers(prs@),
{
    let mut out: Vec<u64> = Vec::new();
    let mut i: usize = 0;
    while i < prs.len()
        invariant
            i <= prs@.len(),
            out@.len() == i,
            forall|j: int| 0 <= j < i ==> out@[j] == (#[trigger] prs@[j]).number,
        decreases prs@.len() - i,
    {
        out.push(prs[i].number);
        i += 1;
    }
    assert(out@ =~= pr_numbers(prs@));
    out
}

/// The paths of gates, those without one left out.
pub open spec fn gate_paths(gates: Seq<GateModel>) -> Seq<Seq<char>>
    decreases gates.len(),
{
    if gates.len() == 0 {
        Seq::empty()
    } else if gates.last().path.len() == 0 {
        gate_paths(gates.drop_last())
    } else {
        gate_paths(gates.drop_last()).push(gates.last().path)
    }
}

/// Where to look: everything that is watched, and every path that a gate remembers, so that
/// anything already quizzed stays reachable without settings.
pub fn root_candidates(watched: &[String], gates: &[Gate]) -> (r: Vec<String>)
    ensures
        texts(r@) == texts(watched@) + gate_paths(gate_models(gates@)),
{
    broadcast use texts_push;

    let mut out: Vec<String> = crate::text::split::clone_texts(watched);
    let ghost ws = texts(out@);
    let ghost gs = gate_models(gates@);
    let mut i: usize = 0;
    proof {
        assert(gs.take(0) =~= Seq::empty());
        assert(ws + gate_paths(gs.take(0)) =~= ws);
    }
    while i < gates.len()
        invariant
            i <= gates@.len(),
            gs == gate_models(gates@),
            texts(out@) == ws + gate_paths(gs.take(i as int)),
        decreases gates@.len() - i,
    {
        let g = &gates[i];
        proof {
            assert(gs.take(i + 1).drop_last() =~= gs.take(i as int));
            assert(gs.take(i + 1).last() == g@);
        }
        if !g.path.as_str().is_empty() {
            proof {
                let paths = gate_paths(gs.take(i as int));
                assert((ws + paths).push(g.path@) =~= ws + paths.push(g.path@));
            }
            out.push(g.path.clone());
        }
        i += 1;
    }
    proof {
        assert(gs.take(i as int) =~= gs);
    }
    out
}

/// The first of the candidates that is a directory and has these components, where
/// `present` says which are directories.
pub open spec fn first_root(
    candidates: Seq<Seq<char>>,
    present: Seq<bool>,
    key: Seq<Seq<char>>,
) -> Option<Seq<char>>
    decreases candidates.len(),
{
    if candidates.len() == 0 {
        None
    } else {
        let n = candidates.len() - 1;
        let earlier = first_root(candidates.drop_last(), present, key);
        if earlier is Some {
            earlier
        } else if n < present.len() && present[n] && components(candidates[n]) == key {
            Some(candidates[n])
        } else {
            None
        }
    }
}

/// Whether each path comes before those behind it; no path then occurs twice.
pub open spec fn paths_go_up(paths: Seq<Seq<char>>) -> bool {
    forall|i: int, j: int|
        0 <= i < j < paths.len() ==> path_before(
            components(#[trigger] paths[i]),
            components(#[trigger] paths[j]),
        )
}

/// Whether these are the roots among the candidates: in order, each path once, as the first
/// candidate has it, and no directory left out.
pub open spec fn are_roots(
    paths: Seq<Seq<char>>,
    candidates: Seq<Seq<char>>,
    present: Seq<bool>,
) -> bool {
    &&& paths_go_up(paths)
    &&& forall|i: int|
        0 <= i < paths.len() ==> first_root(
            candidates,
            present,
            components(#[trigger] paths[i]),
        ) == Some(paths[i])
    &&& forall|key: Seq<Seq<char>>|
        (#[trigger] first_root(candidates, present, key)) matches Some(p) ==> paths.contains(p)
}

proof fn first_root_has_the_key(
    candidates: Seq<Seq<char>>,
    present: Seq<bool>,
    key: Seq<Seq<char>>,
)
    ensures
        first_root(candidates, present, key) matches Some(p) ==> components(p) == key,
    decreases candidates.len(),
{
    if candidates.len() > 0 {
        first_root_has_the_key(candidates.drop_last(), present, key);
    }
}

/// Where a path belongs among the roots so far: the place, and whether it is there already.
fn place_among(roots: &[String], key: &[String]) -> (r: (usize, bool))
    requires
        paths_go_up(texts(roots@)),
    ensures
        r.0 <= roots@.len(),
        forall|i: int|
            0 <= i < r.0 ==> path_before(components(#[trigger] texts(roots@)[i]), texts(key@)),
        r.1 ==> r.0 < roots@.len() && components(texts(roots@)[r.0 as int]) == texts(key@),
        !r.1 ==> forall|i: int|
            r.0 <= i < roots@.len() ==> path_before(
                texts(key@),
                components(#[trigger] texts(roots@)[i]),
            ),
{
    let ghost rs = texts(roots@);
    let mut i: usize = 0;
    while i < roots.len()
        invariant
            i <= roots@.len(),
            rs == texts(roots@),
            paths_go_up(rs),
            forall|j: int| 0 <= j < i ==> path_before(components(#[trigger] rs[j]), texts(key@)),
        decreases roots@.len() - i,
    {
        let here = split_path(roots[i].as_str());
        assert(rs[i as int] == roots@[i as int]@);
        if !is_path_before(&here, key) {
            let found = !is_path_before(key, &here);
            proof {
                path_before_is_total(texts(here@), texts(key@));
                if !found {
                    assert forall|j: int| i <= j < rs.len() implies path_before(
                        texts(key@),
                        components(#[trigger] rs[j]),
                    ) by {
                        if j > i {
                            assert(path_before(components(rs[i as int]), components(rs[j])));
                            path_before_is_transitive(
                                texts(key@),
                                components(rs[i as int]),
                                components(rs[j]),
                            );
                        }
                    }
                }
            }
            return (i, found);
        }
        i += 1;
    }
    (i, false)
}

/// The directories to look at: those of the candidates that are there, in order, each once.
/// `present` says which of the candidates are directories.
pub fn roots(candidates: &[String], present: &[bool]) -> (r: Vec<String>)
    ensures
        are_roots(texts(r@), texts(candidates@), present@),
{
    let ghost cs = texts(candidates@);
    let ghost marks = present@;
    let mut out: Vec<String> = Vec::new();
    let mut i: usize = 0;
    proof {
        assert(cs.take(0) =~= Seq::empty());
        assert(texts(out@) =~= Seq::empty());
    }
    while i < candidates.len()
        invariant
            i <= candidates@.len(),
            cs == texts(candidates@),
            marks == present@,
            are_roots(texts(out@), cs.take(i as int), marks),
        decreases candidates@.len() - i,
    {
        let path = candidates[i].as_str();
        let key = split_path(path);
        let ghost now = cs.take(i as int);
        let ghost next = cs.take(i + 1);
        let ghost rs = texts(out@);
        proof {
            assert(next.drop_last() =~= now);
            assert(next[i as int] == path@);
        }
        let there = i < present.len() && present[i];
        let (at, found) = place_among(&out, &key);
        if there && !found {
            let copy = candidates[i].clone();
            proof {
                assert(texts(out@.insert(at as int, copy)) =~= rs.insert(at as int, path@));
                root_inserted(rs, now, next, marks, at as int);
            }
            out.insert(at, copy);
        } else {
            proof {
                root_kept(rs, now, next, marks, there, at as int);
            }
        }
        i += 1;
    }
    proof {
        assert(cs.take(i as int) =~= cs);
    }
    out
}

/// A candidate that is no directory, or is among the roots already, changes nothing.
proof fn root_kept(
    rs: Seq<Seq<char>>,
    now: Seq<Seq<char>>,
    next: Seq<Seq<char>>,
    marks: Seq<bool>,
    there: bool,
    at: int,
)
    requires
        next.len() > 0,
        next.drop_last() == now,
        are_roots(rs, now, marks),
        there == (now.len() < marks.len() && marks[now.len() as int]),
        there ==> 0 <= at < rs.len() && components(rs[at]) == components(next.last()),
    ensures
        are_roots(rs, next, marks),
{
    assert forall|key: Seq<Seq<char>>|
        (#[trigger] first_root(next, marks, key)) is Some implies rs.contains(
        first_root(next, marks, key)->0,
    ) by {
        if first_root(now, marks, key) is None && there && components(next.last()) == key {
            assert(first_root(now, marks, components(rs[at])) == Some(rs[at]));
        }
        assert(first_root(now, marks, key) == first_root(next, marks, key));
    }
    assert forall|i: int| 0 <= i < rs.len() implies first_root(
        next,
        marks,
        components(#[trigger] rs[i]),
    ) == Some(rs[i]) by {
        assert(first_root(now, marks, components(rs[i])) == Some(rs[i]));
    }
}

/// A directory that is not among the roots yet becomes one of them, at its place.
proof fn root_inserted(
    rs: Seq<Seq<char>>,
    now: Seq<Seq<char>>,
    next: Seq<Seq<char>>,
    marks: Seq<bool>,
    at: int,
)
    requires
        next.len() > 0,
        next.drop_last() == now,
        are_roots(rs, now, marks),
        now.len() < marks.len(),
        marks[now.len() as int],
        0 <= at <= rs.len(),
        forall|i: int|
            0 <= i < at ==> path_before(components(#[trigger] rs[i]), components(next.last())),
        forall|i: int|
            at <= i < rs.len() ==> path_before(components(next.last()), components(#[trigger] rs[i])),
    ensures
        are_roots(rs.insert(at, next.last()), next, marks),
{
    let path = next.last();
    let out = rs.insert(at, path);
    let kp = components(path);
    path_before_is_total(kp, kp);
    first_root_has_the_key(now, marks, kp);
    if first_root(now, marks, kp) is Some {
        let p = first_root(now, marks, kp)->0;
        let k = choose|k: int| 0 <= k < rs.len() && rs[k] == p;
        assert(components(rs[k]) == kp);
        assert(false);
    }
    assert(first_root(next, marks, kp) == Some(path));
    assert forall|i: int, j: int| 0 <= i < j < out.len() implies path_before(
        components(#[trigger] out[i]),
        components(#[trigger] out[j]),
    ) by {
        if i < at && j < at {
            assert(out[i] == rs[i] && out[j] == rs[j]);
        } else if i < at && j == at {
            assert(out[i] == rs[i]);
        } else if i < at {
            assert(out[i] == rs[i] && out[j] == rs[j - 1]);
        } else if i == at {
            assert(out[j] == rs[j - 1]);
        } else {
            assert(out[i] == rs[i - 1] && out[j] == rs[j - 1]);
        }
    }
    assert forall|i: int| 0 <= i < out.len() implies first_root(
        next,
        marks,
        components(#[trigger] out[i]),
    ) == Some(out[i]) by {
        if i < at {
            assert(out[i] == rs[i]);
            assert(first_root(now, marks, components(rs[i])) == Some(rs[i]));
        } else if i > at {
            assert(out[i] == rs[i - 1]);
            assert(first_root(now, marks, components(rs[i - 1])) == Some(rs[i - 1]));
        }
    }
    assert forall|key: Seq<Seq<char>>|
        (#[trigger] first_root(next, marks, key)) is Some implies out.contains(
        first_root(next, marks, key)->0,
    ) by {
        let p = first_root(next, marks, key)->0;
        if first_root(now, marks, key) is Some {
            assert(first_root(now, marks, key) == Some(p));
            let k = choose|k: int| 0 <= k < rs.len() && rs[k] == p;
            if k < at {
                assert(out[k] == p);
            } else {
                assert(out[k + 1] == p);
            }
        } else {
            assert(out[at] == p);
        }
    }
}

} // verus!
