//! Keeping the record in a store: which versions of its layout are still to come, and which
//! rows are to be written.

use vstd::prelude::*;
use crate::db::{Gate, GateRow, Question, QuestionRow, Records};
use crate::llm::generate::optional_text;
use crate::text::chars::same;
use crate::text::split::texts;

verus! {

// ---------------------------------------------------------------- versions

/// The versions that come after `current`, of those from one to `total`, in order.
pub open spec fn pending_versions(current: int, total: nat) -> Seq<usize> {
    let first = if current < 0 { 1 } else { current + 1 };
    Seq::new(
        if total >= first {
            (total - first + 1) as nat
        } else {
            0
        },
        |i: int| (first + i) as usize,
    )
}

/// The versions that a store at version `current` has still to go through, where there are
/// `total` of them.
pub fn pending(current: i64, total: usize) -> (r: Vec<usize>)
    ensures
        r@ == pending_versions(current as int, total as nat),
{
    let mut out: Vec<usize> = Vec::new();
    let mut done: usize = 0;
    assert(out@ =~= pending_versions(current as int, 0));
    while done < total
        invariant
            done <= total,
            out@ == pending_versions(current as int, done as nat),
        decreases total - done,
    {
        let version: usize = done + 1;
        if version as i128 > current as i128 {
            out.push(version);
        }
        assert(out@ =~= pending_versions(current as int, version as nat));
        done = version;
    }
    out
}

/// A store goes through exactly the versions that it has not reached yet, each once and in
/// order, and through none once it is at the last.
pub proof fn every_version_comes_once(current: int, total: usize)
    ensures
        forall|v: usize|
            #[trigger] pending_versions(current, total as nat).contains(v) <==> current < v
                && 1 <= v <= total,
        forall|i: int, j: int|
            0 <= i < j < pending_versions(current, total as nat).len() ==> (
            #[trigger] pending_versions(current, total as nat)[i]) < (
            #[trigger] pending_versions(current, total as nat)[j]),
        current >= total ==> pending_versions(current, total as nat).len() == 0,
{
    let p = pending_versions(current, total as nat);
    let first = if current < 0 { 1 } else { current + 1 };
    assert forall|v: usize| #[trigger] p.contains(v) <==> current < v && 1 <= v <= total by {
        if current < v && 1 <= v <= total {
            assert(p[v - first] == v);
        }
    }
}

/// A store that stopped on its way goes on where it stopped: after any version, what is still
/// to come is what came behind it.
pub proof fn an_interrupted_store_goes_on(current: int, total: usize, i: int)
    requires
        0 <= i < pending_versions(current, total as nat).len(),
    ensures
        pending_versions(pending_versions(current, total as nat)[i] as int, total as nat)
            == pending_versions(current, total as nat).skip(i + 1),
{
    let p = pending_versions(current, total as nat);
    assert(pending_versions(p[i] as int, total as nat) =~= p.skip(i + 1));
}

// ---------------------------------------------------------------- rows

/// The places whose rows are not as they were, or were not there.
pub open spec fn changed_places<A>(before: Seq<A>, after: Seq<A>) -> Seq<usize>
    decreases after.len(),
{
    if after.len() == 0 {
        Seq::empty()
    } else {
        let n = after.len() - 1;
        let rest = changed_places(before, after.drop_last());
        if n < before.len() && before[n] == after[n] {
            rest
        } else {
            rest.push(n as usize)
        }
    }
}

/// What has to be written of a record: the places of gates and questions, and where the
/// attempts and obligations begin that are new.
#[derive(Debug)]
pub struct Changes {
    pub gates: Vec<usize>,
    pub questions: Vec<usize>,
    pub attempts: usize,
    pub obligations: usize,
}

fn same_optional(a: &Option<String>, b: &Option<String>) -> (r: bool)
    ensures
        r == (optional_text(*a) == optional_text(*b)),
{
    match (a, b) {
        (Some(a), Some(b)) => same(a.as_str(), b.as_str()),
        (None, None) => true,
        _ => false,
    }
}

fn same_texts(a: &[String], b: &[String]) -> (r: bool)
    ensures
        r == (texts(a@) == texts(b@)),
{
    let ghost x = texts(a@);
    let ghost y = texts(b@);
    if a.len() != b.len() {
        assert(x.len() != y.len());
        return false;
    }
    let mut i: usize = 0;
    while i < a.len()
        invariant
            i <= a@.len() == b@.len(),
            x == texts(a@),
            y == texts(b@),
            forall|j: int| 0 <= j < i ==> x[j] == y[j],
        decreases a@.len() - i,
    {
        if !same(a[i].as_str(), b[i].as_str()) {
            assert(x[i as int] != y[i as int]);
            return false;
        }
        i += 1;
    }
    assert(x =~= y);
    true
}

fn same_gate(a: &Gate, b: &Gate) -> (r: bool)
    ensures
        r == (a@ == b@),
{
    a.id == b.id && a.pr_number == b.pr_number && a.hunks_total == b.hunks_total && a.hunks_ai
        == b.hunks_ai && a.hunks_covered == b.hunks_covered && a.has_checkable == b.has_checkable
        && a.has_exercise == b.has_exercise && same(a.repo.as_str(), b.repo.as_str()) && same(
        a.path.as_str(),
        b.path.as_str(),
    ) && same(a.branch.as_str(), b.branch.as_str()) && same(
        a.base_ref.as_str(),
        b.base_ref.as_str(),
    ) && same(a.base_sha.as_str(), b.base_sha.as_str()) && same(
        a.head_sha.as_str(),
        b.head_sha.as_str(),
    ) && same(a.authorship.as_str(), b.authorship.as_str()) && same(
        a.state.as_str(),
        b.state.as_str(),
    ) && same(a.diff.as_str(), b.diff.as_str())
}

fn same_gate_row(a: &GateRow, b: &GateRow) -> (r: bool)
    ensures
        r == (a@ == b@),
{
    same_gate(&a.gate, &b.gate) && same(a.created_at.as_str(), b.created_at.as_str()) && same(
        a.updated_at.as_str(),
        b.updated_at.as_str(),
    ) && same_optional(&a.cleared_at, &b.cleared_at) && same_optional(
        &a.superseded_at,
        &b.superseded_at,
    )
}

fn same_question(a: &Question, b: &Question) -> (r: bool)
    ensures
        r == (a@ == b@),
{
    let scores = match (a.score, b.score) {
        (Some(x), Some(y)) => x == y,
        (None, None) => true,
        _ => false,
    };
    scores && a.id == b.id && same(a.kind.as_str(), b.kind.as_str()) && same(
        a.file.as_str(),
        b.file.as_str(),
    ) && same(a.anchor.as_str(), b.anchor.as_str()) && same(a.text.as_str(), b.text.as_str())
        && same(a.reference.as_str(), b.reference.as_str()) && same_texts(&a.hints, &b.hints)
        && same(a.status.as_str(), b.status.as_str()) && same_optional(&a.label, &b.label)
}

fn same_question_row(a: &QuestionRow, b: &QuestionRow) -> (r: bool)
    ensures
        r == (a@ == b@),
{
    a.gate_id == b.gate_id && same_question(&a.question, &b.question) && same(
        a.created_at.as_str(),
        b.created_at.as_str(),
    )
}

/// What has to be written for a store that holds `before` to hold `after`.
pub fn changes(before: &Records, after: &Records) -> (r: Changes)
    ensures
        r.gates@ == changed_places(before@.gates, after@.gates),
        r.questions@ == changed_places(before@.questions, after@.questions),
        r.attempts == before@.attempts.len(),
        r.obligations == before@.obligations.len(),
{
    let ghost gs = after@.gates;
    let mut gates: Vec<usize> = Vec::new();
    let mut i: usize = 0;
    assert(gs.take(0) =~= Seq::empty());
    while i < after.gates.len()
        invariant
            i <= after.gates@.len(),
            gs == after@.gates,
            gates@ == changed_places(before@.gates, gs.take(i as int)),
        decreases after.gates@.len() - i,
    {
        proof {
            assert(gs.take(i + 1).drop_last() =~= gs.take(i as int));
            assert(gs[i as int] == after.gates@[i as int]@);
        }
        if i >= before.gates.len() || !same_gate_row(&before.gates[i], &after.gates[i]) {
            gates.push(i);
        }
        i += 1;
    }
    let ghost qs = after@.questions;
    let mut questions: Vec<usize> = Vec::new();
    let mut k: usize = 0;
    proof {
        assert(gs.take(i as int) =~= gs);
        assert(qs.take(0) =~= Seq::empty());
    }
    while k < after.questions.len()
        invariant
            k <= after.questions@.len(),
            qs == after@.questions,
            questions@ == changed_places(before@.questions, qs.take(k as int)),
        decreases after.questions@.len() - k,
    {
        proof {
            assert(qs.take(k + 1).drop_last() =~= qs.take(k as int));
            assert(qs[k as int] == after.questions@[k as int]@);
        }
        if k >= before.questions.len() || !same_question_row(
            &before.questions[k],
            &after.questions[k],
        ) {
            questions.push(k);
        }
        k += 1;
    }
    assert(qs.take(k as int) =~= qs);
    Changes {
        gates,
        questions,
        attempts: before.attempts.len(),
        obligations: before.obligations.len(),
    }
}

/// Nothing is forgotten: a row that is not written is in the store as it is.
pub proof fn what_is_not_written_is_there<A>(before: Seq<A>, after: Seq<A>, i: int)
    requires
        0 <= i < after.len() <= usize::MAX,
        !changed_places(before, after).contains(i as usize),
    ensures
        i < before.len(),
        before[i] == after[i],
    decreases after.len(),
{
    let n = after.len() - 1;
    let rest = changed_places(before, after.drop_last());
    let all = changed_places(before, after);
    if i == n {
        if !(n < before.len() && before[n] == after[n]) {
            assert(all[rest.len() as int] == i as usize);
        }
    } else {
        if rest.contains(i as usize) {
            let k = choose|k: int| 0 <= k < rest.len() && rest[k] == i as usize;
            assert(all[k] == i as usize);
        }
        what_is_not_written_is_there(before, after.drop_last(), i);
    }
}

} // verus!
