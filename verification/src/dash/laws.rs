//! What holds of the dashboard, whatever is found.

use vstd::prelude::*;
use crate::dash::{
    all_rows_found, are_roots, first_root, gate_paths, in_order, level_with, passed_count,
    pr_numbers, problems_of, records_after_all, row_before, row_of_pr, Found, RowModel, Status,
};
use crate::db::laws::pruning_keeps_live_gates;
use crate::db::{live_gate, pruned, questions_in, GateModel, QuestionModel, RecordsModel};
use crate::gh::PrBrief;
use crate::text::number::{decimal, signed_decimal};
use crate::text::order::before;
use crate::text::path::{components, path_before};

verus! {

/// Every directory adds its rows behind those of the others: one for each open pull request
/// there, and none where the repository or its pull requests could not be had.
pub proof fn every_pull_request_has_a_row(
    r: RecordsModel,
    found: Seq<Found>,
    f: Found,
    dirs: Seq<Seq<char>>,
    now: Seq<char>,
)
    ensures
        ({
            let some = all_rows_found(r, found, dirs, now);
            let all = all_rows_found(r, found.push(f), dirs, now);
            let after = records_after_all(r, found.push(f), now);
            match (f.repo, f.prs) {
                (Ok(repo), Ok(prs)) => {
                    &&& all.len() == some.len() + prs@.len()
                    &&& forall|i: int| 0 <= i < some.len() ==> #[trigger] all[i] == some[i]
                    &&& forall|i: int|
                        0 <= i < prs@.len() ==> #[trigger] all[some.len() + i] == row_of_pr(
                            after,
                            repo@,
                            f.root@,
                            prs@[i],
                            dirs,
                        )
                },
                _ => all == some,
            }
        }),
        all_rows_found(r, Seq::empty(), dirs, now).len() == 0,
{
    assert(found.push(f).drop_last() =~= found);
    let some = all_rows_found(r, found, dirs, now);
    assert(some + Seq::<RowModel>::empty() =~= some);
}

/// A row is of its pull request: by its repository, number, branch and title, where its gate was
/// made if that is a directory still and otherwise where it was found, with the state and the
/// coverage of its live gate.
pub proof fn what_a_row_says(
    r: RecordsModel,
    repo: Seq<char>,
    root: Seq<char>,
    pr: PrBrief,
    dirs: Seq<Seq<char>>,
)
    ensures
        ({
            let row = row_of_pr(r, repo, root, pr, dirs);
            &&& row.repo == repo
            &&& row.pr_number == pr.number
            &&& row.branch == pr.head_ref_name@
            &&& row.title == pr.title@
            &&& match live_gate(r.gates, repo, pr.number) {
                Some(g) => {
                    let qs = questions_in(r.questions, g.id);
                    &&& row.path == if dirs.contains(g.path) { g.path } else { root }
                    &&& g.state == "cleared"@ ==> row.status == Status::Cleared
                    &&& g.state == "trivial"@ && g.state != "cleared"@ ==> row.status
                        == Status::Trivial && row.coverage is None
                    &&& g.state != "trivial"@ ==> row.coverage == Some(
                        decimal(qs.len()) + "q · "@ + signed_decimal(g.hunks_covered as int) + "/"@
                            + signed_decimal(g.hunks_ai as int) + " hunks"@,
                    )
                    &&& g.state != "cleared"@ && g.state != "trivial"@ && qs.len() <= usize::MAX
                        ==> row.status is InProgress && row.status->total == qs.len()
                        && row.status->done == qs.filter(
                        |q: QuestionModel| q.status == "passed"@,
                    ).len()
                },
                None => row.path == root && row.status == Status::Ungated && row.coverage is None,
            }
        }),
{
    if let Some(g) = live_gate(r.gates, repo, pr.number) {
        let qs = questions_in(r.questions, g.id);
        passed_are_counted(qs);
        qs.lemma_filter_len(|q: QuestionModel| q.status == "passed"@);
        reveal_strlit("trivial");
        reveal_strlit("cleared");
        assert("trivial"@[0] == 't' && "cleared"@[0] == 'c');
    }
}

proof fn passed_are_counted(qs: Seq<QuestionModel>)
    ensures
        passed_count(qs) == qs.filter(|q: QuestionModel| q.status == "passed"@).len(),
    decreases qs.len(),
{
    reveal(Seq::filter);
    if qs.len() > 0 {
        passed_are_counted(qs.drop_last());
    }
}

/// Looking at directories changes the record by pruning alone, each repository by the pull
/// requests that are open there; where something could not be had nothing changes.
pub proof fn looking_prunes_and_nothing_more(
    r: RecordsModel,
    found: Seq<Found>,
    f: Found,
    now: Seq<char>,
)
    ensures
        records_after_all(r, found.push(f), now) == match (f.repo, f.prs) {
            (Ok(repo), Ok(prs)) => pruned(
                records_after_all(r, found, now),
                repo@,
                prs@.map_values(|p: PrBrief| p.number),
                now,
            ),
            _ => records_after_all(r, found, now),
        },
        records_after_all(r, Seq::empty(), now) == r,
{
    assert(found.push(f).drop_last() =~= found);
    if let Ok(prs) = f.prs {
        assert(pr_numbers(prs@) =~= prs@.map_values(|p: PrBrief| p.number));
    }
}

/// A gate of a pull request that is open wherever its repository was found is, after looking,
/// the one that was live before: no other repository's pull requests take it away.
pub proof fn an_open_pull_request_keeps_its_gate(
    r: RecordsModel,
    found: Seq<Found>,
    repo: Seq<char>,
    pr: u64,
    now: Seq<char>,
)
    requires
        forall|j: int|
            0 <= j < found.len() && ((#[trigger] found[j]).repo matches Ok(name) && name@ == repo) && (
            found[j].prs matches Ok(_)) ==> exists|i: int|
                0 <= i < (found[j].prs->Ok_0)@.len() && (#[trigger] (found[j].prs->Ok_0)@[i]).number == pr,
    ensures
        live_gate(records_after_all(r, found, now).gates, repo, pr) == live_gate(r.gates, repo, pr),
    decreases found.len(),
{
    if found.len() > 0 {
        let rest = found.drop_last();
        let n = found.len() - 1;
        assert forall|j: int|
            0 <= j < rest.len() && ((#[trigger] rest[j]).repo matches Ok(name) && name@ == repo) && (
            rest[j].prs matches Ok(_)) implies exists|i: int|
            0 <= i < (rest[j].prs->Ok_0)@.len() && (#[trigger] (rest[j].prs->Ok_0)@[i]).number
                == pr by {
            assert(rest[j] == found[j]);
        }
        an_open_pull_request_keeps_its_gate(r, rest, repo, pr, now);
        let before = records_after_all(r, rest, now);
        let f = found[n];
        assert(f == found.last());
        match (f.repo, f.prs) {
            (Ok(name), Ok(prs)) => {
                if name@ == repo {
                    let i = choose|i: int| 0 <= i < prs@.len() && (#[trigger] prs@[i]).number == pr;
                    assert(pr_numbers(prs@)[i] == pr);
                }
                pruning_keeps_live_gates(before, name@, pr_numbers(prs@), now, repo, pr);
            },
            _ => {},
        }
    }
}

/// Every failure is told, one after the other: that of a directory without a repository by its
/// path, that of a repository without pull requests by its name.
pub proof fn every_problem_is_told(found: Seq<Found>, f: Found)
    ensures
        f.repo matches Err(e) ==> problems_of(found.push(f)) == problems_of(found).push(
            f.root@ + ": "@ + e@,
        ),
        f.repo matches Ok(repo) ==> (f.prs matches Err(e) ==> problems_of(found.push(f))
            == problems_of(found).push(repo@ + ": "@ + e@)),
        f.repo is Ok && f.prs is Ok ==> problems_of(found.push(f)) == problems_of(found),
        problems_of(Seq::empty()).len() == 0,
{
    assert(found.push(f).drop_last() =~= found);
    let p = problems_of(found);
    assert(p + Seq::<Seq<char>>::empty() =~= p);
    if let Err(e) = f.repo {
        assert(p + seq![f.root@ + ": "@ + e@] =~= p.push(f.root@ + ": "@ + e@));
    }
    if let Ok(repo) = f.repo {
        if let Err(e) = f.prs {
            assert(p + seq![repo@ + ": "@ + e@] =~= p.push(repo@ + ": "@ + e@));
        }
    }
}

/// How rows are ordered: what wants you comes first; then the repository by its name; then the
/// lower number. Rows that are alike in all three may stand in any order.
pub proof fn how_rows_are_ordered(rows: Seq<RowModel>, i: int, j: int)
    requires
        in_order(rows),
        0 <= i < j < rows.len(),
    ensures
        ({
            let wants = |s: Status| s is InProgress || s is Ungated;
            let (a, b) = (rows[i], rows[j]);
            &&& wants(b.status) ==> wants(a.status)
            &&& wants(a.status) == wants(b.status) ==> !before(b.repo, a.repo)
            &&& wants(a.status) == wants(b.status) && a.repo == b.repo ==> a.pr_number <= b.pr_number
        }),
{
    crate::text::order::before_is_total(rows[j].repo, rows[i].repo);
    assert(!row_before(rows[j], rows[i]));
}

/// Rows that are level are those alike in what they ask, in repository and in number.
pub proof fn which_rows_are_level(a: RowModel, b: RowModel)
    ensures
        level_with(a)(b) <==> a.repo == b.repo && a.pr_number == b.pr_number && (
        a.status is InProgress || a.status is Ungated) == (b.status is InProgress
            || b.status is Ungated),
{
}

/// A gate is looked for where it was made, wherever that is known.
pub proof fn gates_are_looked_for_where_they_were_made(gates: Seq<GateModel>)
    ensures
        gate_paths(gates) == gates.filter(|g: GateModel| g.path.len() > 0).map_values(
            |g: GateModel| g.path,
        ),
    decreases gates.len(),
{
    reveal(Seq::filter);
    let p = |g: GateModel| g.path.len() > 0;
    let f = |g: GateModel| g.path;
    if gates.len() > 0 {
        gates_are_looked_for_where_they_were_made(gates.drop_last());
        let sub = gates.drop_last().filter(p);
        assert(sub.push(gates.last()).map_values(f) =~= sub.map_values(f).push(f(gates.last())));
    }
    assert(gate_paths(gates) =~= gates.filter(p).map_values(f));
}

/// Whether a path is one of the candidates that are directories.
pub open spec fn is_a_directory(path: Seq<char>, candidates: Seq<Seq<char>>, present: Seq<bool>) -> bool {
    exists|k: int|
        0 <= k < candidates.len() && k < present.len() && present[k] && #[trigger] candidates[k]
            == path
}

/// Whether a path, under some spelling, is among the paths.
pub open spec fn is_among(path: Seq<char>, paths: Seq<Seq<char>>) -> bool {
    exists|i: int| 0 <= i < paths.len() && components(#[trigger] paths[i]) == components(path)
}

/// The roots are the directories among the candidates: each of them is one, each directory is
/// there under some spelling, and they are in order with none twice.
pub proof fn roots_are_the_directories(
    paths: Seq<Seq<char>>,
    candidates: Seq<Seq<char>>,
    present: Seq<bool>,
)
    requires
        are_roots(paths, candidates, present),
    ensures
        forall|i: int|
            0 <= i < paths.len() ==> is_a_directory(#[trigger] paths[i], candidates, present),
        forall|k: int|
            0 <= k < candidates.len() && k < present.len() && present[k] ==> is_among(
                #[trigger] candidates[k],
                paths,
            ),
        forall|i: int, j: int|
            0 <= i < j < paths.len() ==> path_before(
                components(#[trigger] paths[i]),
                components(#[trigger] paths[j]),
            ),
{
    assert forall|i: int| 0 <= i < paths.len() implies is_a_directory(
        #[trigger] paths[i],
        candidates,
        present,
    ) by {
        assert(first_root(candidates, present, components(paths[i])) == Some(paths[i]));
        root_is_a_candidate(candidates, present, components(paths[i]));
    }
    assert forall|k: int| 0 <= k < candidates.len() && k < present.len() && present[k] implies is_among(
        #[trigger] candidates[k],
        paths,
    ) by {
        let key = components(candidates[k]);
        a_directory_has_a_root(candidates, present, k);
        root_is_a_candidate(candidates, present, key);
        let p = first_root(candidates, present, key)->0;
        assert(paths.contains(p));
        let i = choose|i: int| 0 <= i < paths.len() && paths[i] == p;
        assert(components(paths[i]) == key);
    }
}

proof fn root_is_a_candidate(
    candidates: Seq<Seq<char>>,
    present: Seq<bool>,
    key: Seq<Seq<char>>,
)
    ensures
        first_root(candidates, present, key) matches Some(p) ==> components(p) == key && exists|
            k: int,
        |
            0 <= k < candidates.len() && k < present.len() && present[k] && #[trigger] candidates[k]
                == p,
    decreases candidates.len(),
{
    if candidates.len() > 0 {
        let rest = candidates.drop_last();
        root_is_a_candidate(rest, present, key);
        if first_root(rest, present, key) is Some {
            let p = first_root(rest, present, key)->0;
            let k = choose|k: int|
                0 <= k < rest.len() && k < present.len() && present[k] && #[trigger] rest[k] == p;
            assert(candidates[k] == p);
        }
    }
}

proof fn a_directory_has_a_root(candidates: Seq<Seq<char>>, present: Seq<bool>, k: int)
    requires
        0 <= k < candidates.len(),
        k < present.len(),
        present[k],
    ensures
        first_root(candidates, present, components(candidates[k])) is Some,
    decreases candidates.len(),
{
    if k < candidates.len() - 1 {
        assert(candidates.drop_last()[k] == candidates[k]);
        a_directory_has_a_root(candidates.drop_last(), present, k);
    }
}

/// How a status reads.
pub proof fn how_a_status_reads(done: usize, total: usize)
    ensures
        (Status::InProgress { done, total }).text() == decimal(done as nat) + "/"@ + decimal(
            total as nat,
        ) + " answered"@,
        Status::Cleared.text() == "cleared"@,
        Status::Trivial.text() == "nothing to ask"@,
        Status::Ungated.text() == "no gate"@,
        (Status::InProgress { done, total }).asks(),
        Status::Ungated.asks(),
        !Status::Cleared.asks(),
        !Status::Trivial.asks(),
{
}

} // verus!
