//! The life of a gate, the pass rule, and what a quiz covered. Clearing a gate is
//! recorded, and nothing else: the pull request itself is left alone.

use vstd::prelude::*;
use vstd::string::StringExecFns;
use crate::db::{open_obligation, with_obligation, Question, Records};
use crate::git::{hunk_models, Hunk};
use crate::llm::{cites, cites_the_diff, Divergence, PARTIAL, RESTATES};
use crate::text::chars::same;
use crate::text::number::{decimal, show_signed, show_usize, signed_decimal};
use crate::tui::app::scored_models;

pub mod ask;
pub mod laws;
pub mod outcome;
pub mod ready;
pub mod scope;

pub use crate::gate::ready::Ready;

verus! {

// ---------------------------------------------------------------- coverage

/// What a quiz covered.
#[derive(Debug)]
pub struct Coverage {
    pub questions: usize,
    pub hunks_ai: i64,
    pub hunks_total: i64,
    pub hunks_covered: i64,
    pub authorship: String,
    pub has_checkable: bool,
    pub has_exercise: bool,
    pub has_intent: bool,
}

/// `more` where `when` holds, nothing otherwise.
pub open spec fn text_if(when: bool, more: Seq<char>) -> Seq<char> {
    if when {
        more
    } else {
        Seq::empty()
    }
}

/// How coverage reads. What is missing from a quiz is said, not passed over.
pub open spec fn coverage_text(
    questions: nat,
    covered: int,
    ai: int,
    total: int,
    authorship: Seq<char>,
    has_checkable: bool,
    has_exercise: bool,
    has_intent: bool,
) -> Seq<char> {
    decimal(questions) + " questions · "@ + signed_decimal(covered) + "/"@ + signed_decimal(ai)
        + " AI hunks"@ + text_if(authorship != "trailers"@, " · authorship: "@ + authorship)
        + text_if(ai != total, " · "@ + signed_decimal(total) + " hunks in PR"@) + text_if(
        !has_checkable,
        " · no checkable"@,
    ) + text_if(!has_exercise, " · no exercise"@) + text_if(!has_intent, " · NO INTENT QUESTION"@)
}

impl Coverage {
    /// How coverage reads.
    pub open spec fn text(self) -> Seq<char> {
        coverage_text(
            self.questions as nat,
            self.hunks_covered as int,
            self.hunks_ai as int,
            self.hunks_total as int,
            self.authorship@,
            self.has_checkable,
            self.has_exercise,
            self.has_intent,
        )
    }

    /// How coverage reads.
    pub fn line(&self) -> (r: String)
        ensures
            r@ == self.text(),
    {
        let mut s = show_usize(self.questions).concat(" questions · ").concat(
            show_signed(self.hunks_covered).as_str(),
        ).concat("/").concat(show_signed(self.hunks_ai).as_str()).concat(" AI hunks");
        let mut part = String::new();
        if !same(self.authorship.as_str(), "trailers") {
            part = " · authorship: ".to_owned().concat(self.authorship.as_str());
        }
        s.append(part.as_str());
        part = String::new();
        if self.hunks_ai != self.hunks_total {
            part = " · ".to_owned().concat(show_signed(self.hunks_total).as_str()).concat(
                " hunks in PR",
            );
        }
        s.append(part.as_str());
        s.append(given(!self.has_checkable, " · no checkable").as_str());
        s.append(given(!self.has_exercise, " · no exercise").as_str());
        s.append(given(!self.has_intent, " · NO INTENT QUESTION").as_str());
        s
    }
}

fn given(when: bool, more: &str) -> (r: String)
    ensures
        r@ == text_if(when, more@),
{
    if when {
        more.to_owned()
    } else {
        String::new()
    }
}

// ---------------------------------------------------------------- the pass rule

/// A score, in tenths, with the kind of question that earned it. The pass rule needs the
/// kind because an exercise is exempt from being dropped.
#[derive(Debug)]
pub struct Scored {
    pub kind: String,
    pub score: u32,
}

impl Clone for Scored {
    fn clone(&self) -> (r: Self)
        ensures
            r == *self,
    {
        Scored { kind: self.kind.clone(), score: self.score }
    }
}

/// Whether a score was earned by running the program.
pub open spec fn is_exercise(s: Scored) -> bool {
    s.kind@ == "exercise"@
}

/// How many scores were earned by answering on the screen.
pub open spec fn reasoned(scored: Seq<Scored>) -> nat
    decreases scored.len(),
{
    if scored.len() == 0 {
        0
    } else {
        reasoned(scored.drop_last()) + if is_exercise(scored.last()) {
            0nat
        } else {
            1nat
        }
    }
}

/// How many of these are below `partial`.
pub open spec fn weak(scored: Seq<Scored>) -> nat
    decreases scored.len(),
{
    if scored.len() == 0 {
        0
    } else {
        weak(scored.drop_last()) + if !is_exercise(scored.last()) && scored.last().score < PARTIAL {
            1nat
        } else {
            0nat
        }
    }
}

/// How many of `n` answers may be below `partial`: a third of them, and at least one, but
/// none where there is one answer alone, which is the whole gate.
pub open spec fn forgiven(n: nat) -> nat {
    if n <= 1 {
        0
    } else if n / 3 > 1 {
        n / 3
    } else {
        1
    }
}

/// Whether a score does not block by itself: an exercise at `partial` or better, any other
/// answer no worse than `restates`.
pub open spec fn is_bearable(s: Scored) -> bool {
    if is_exercise(s) {
        s.score >= PARTIAL
    } else {
        s.score >= RESTATES
    }
}

/// Whether a quiz is passed: every exercise is at `partial` or better, no other answer is
/// worse than `restates`, and no more of them are below `partial` than may be forgiven.
pub open spec fn passed(scored: Seq<Scored>) -> bool {
    &&& forall|i: int| 0 <= i < scored.len() ==> is_bearable(#[trigger] scored[i])
    &&& weak(scored) <= forgiven(reasoned(scored))
}

/// The pass rule: drop the lowest third, not the minimum. The rest at `partial` or better,
/// and every dropped one no worse than `restates`.
///
/// What has to stay fixed as the number of questions varies is the share forgiven, not
/// the number. Dropping exactly one asks for two thirds of the questions at three and for
/// five sixths at six, so a fixed drop turns a longer quiz into a quietly stricter gate.
///
/// The exercise is exempt. Dropping the lowest absorbs a judge's noise on free-text
/// reasoning, and an observation is not that; it is the only question that costs minutes,
/// so a rule that could forgive it would sanction skipping it.
pub fn passes(scored: &[Scored]) -> (r: bool)
    ensures
        r == passed(scored@),
{
    let mut n: usize = 0;
    let mut low: usize = 0;
    let mut i: usize = 0;
    proof {
        assert(scored@.take(0) =~= Seq::empty());
    }
    while i < scored.len()
        invariant
            i <= scored@.len(),
            n <= i,
            low <= n,
            n == reasoned(scored@.take(i as int)),
            low == weak(scored@.take(i as int)),
            forall|j: int| 0 <= j < i ==> is_bearable(#[trigger] scored@[j]),
        decreases scored@.len() - i,
    {
        let s = &scored[i];
        proof {
            assert(scored@.take(i + 1).drop_last() =~= scored@.take(i as int));
            assert(scored@.take(i + 1).last() == *s);
        }
        if same(s.kind.as_str(), "exercise") {
            if s.score < PARTIAL {
                assert(!is_bearable(scored@[i as int]));
                return false;
            }
        } else {
            if s.score < RESTATES {
                assert(!is_bearable(scored@[i as int]));
                return false;
            }
            n += 1;
            if s.score < PARTIAL {
                low += 1;
            }
        }
        i += 1;
    }
    proof {
        assert(scored@.take(i as int) =~= scored@);
    }
    let drop: usize = if n <= 1 {
        0
    } else if n / 3 > 1 {
        n / 3
    } else {
        1
    };
    low <= drop
}

/// Whether scores go up.
pub open spec fn goes_up(scores: Seq<u32>) -> bool {
    forall|i: int, j: int| 0 <= i < j < scores.len() ==> #[trigger] scores[i] <= #[trigger] scores[j]
}

/// How many scores are below `partial`.
pub open spec fn below_partial(scores: Seq<u32>) -> nat
    decreases scores.len(),
{
    if scores.len() == 0 {
        0
    } else {
        below_partial(scores.drop_last()) + if scores.last() < PARTIAL {
            1nat
        } else {
            0nat
        }
    }
}

/// Dropping the lowest: with the scores in order, no more than `drop` of them are below
/// `partial` and none is below `restates` exactly where the first `drop` are at `restates`
/// or better and the others at `partial` or better.
pub proof fn the_lowest_are_dropped(scores: Seq<u32>, drop: nat)
    requires
        goes_up(scores),
        drop <= scores.len(),
    ensures
        (below_partial(scores) <= drop && forall|i: int|
            0 <= i < scores.len() ==> #[trigger] scores[i] >= RESTATES) <==> ((forall|i: int|
            0 <= i < drop ==> #[trigger] scores[i] >= RESTATES) && (forall|i: int|
            drop <= i < scores.len() ==> #[trigger] scores[i] >= PARTIAL)),
{
    below_partial_is_a_prefix(scores);
    let k = below_partial(scores);
    if k <= drop && forall|i: int| 0 <= i < scores.len() ==> #[trigger] scores[i] >= RESTATES {
        assert forall|i: int| drop <= i < scores.len() implies #[trigger] scores[i] >= PARTIAL by {}
    }
    if (forall|i: int| 0 <= i < drop ==> #[trigger] scores[i] >= RESTATES) && (forall|i: int|
        drop <= i < scores.len() ==> #[trigger] scores[i] >= PARTIAL) {
        if k > drop {
            assert(scores[drop as int] < PARTIAL);
        }
    }
}

proof fn below_partial_is_a_prefix(scores: Seq<u32>)
    requires
        goes_up(scores),
    ensures
        below_partial(scores) <= scores.len(),
        forall|i: int| 0 <= i < scores.len() ==> (#[trigger] scores[i] < PARTIAL <==> i < below_partial(scores)),
    decreases scores.len(),
{
    if scores.len() > 0 {
        let rest = scores.drop_last();
        assert(goes_up(rest)) by {
            assert forall|i: int, j: int| 0 <= i < j < rest.len() implies #[trigger] rest[i]
                <= #[trigger] rest[j] by {
                assert(scores[i] <= scores[j]);
            }
        }
        below_partial_is_a_prefix(rest);
        let n = scores.len() - 1;
        if scores.last() < PARTIAL {
            assert forall|i: int| 0 <= i < scores.len() implies #[trigger] scores[i] < PARTIAL by {
                if i < n {
                    assert(scores[i] <= scores[n]);
                }
            }
            if below_partial(rest) < rest.len() {
                assert(rest[below_partial(rest) as int] == scores[below_partial(rest) as int]);
            }
            assert(below_partial(rest) == rest.len());
        }
        assert forall|i: int| 0 <= i < scores.len() implies (#[trigger] scores[i] < PARTIAL <==> i
            < below_partial(scores)) by {
            if i < n {
                assert(rest[i] == scores[i]);
            }
        }
    }
}

/// A wrong answer blocks, however many may be dropped.
pub proof fn a_wrong_answer_blocks(scored: Seq<Scored>, i: int)
    requires
        0 <= i < scored.len(),
        scored[i].score < RESTATES,
    ensures
        !passed(scored),
{
    assert(!is_bearable(scored[i]));
}

/// A failed exercise is never dropped.
pub proof fn a_failed_exercise_blocks(scored: Seq<Scored>, i: int)
    requires
        0 <= i < scored.len(),
        is_exercise(scored[i]),
        scored[i].score < PARTIAL,
    ensures
        !passed(scored),
{
    assert(!is_bearable(scored[i]));
}

/// Better scores never block what worse ones let through.
pub proof fn a_better_score_never_blocks(scored: Seq<Scored>, better: Seq<Scored>)
    requires
        passed(scored),
        better.len() == scored.len(),
        forall|i: int|
            0 <= i < scored.len() ==> (#[trigger] better[i]).kind@ == scored[i].kind@
                && better[i].score >= scored[i].score,
    ensures
        passed(better),
{
    better_counts(scored, better);
    assert forall|j: int| 0 <= j < better.len() implies is_bearable(#[trigger] better[j]) by {
        assert(is_bearable(scored[j]));
    }
}

proof fn better_counts(scored: Seq<Scored>, better: Seq<Scored>)
    requires
        better.len() == scored.len(),
        forall|i: int|
            0 <= i < scored.len() ==> (#[trigger] better[i]).kind@ == scored[i].kind@
                && better[i].score >= scored[i].score,
    ensures
        reasoned(better) == reasoned(scored),
        weak(better) <= weak(scored),
    decreases scored.len(),
{
    if scored.len() > 0 {
        let (x, y) = (scored.drop_last(), better.drop_last());
        assert forall|i: int| 0 <= i < x.len() implies (#[trigger] y[i]).kind@ == x[i].kind@
            && y[i].score >= x[i].score by {
            assert(y[i] == better[i]);
        }
        better_counts(x, y);
        assert(better[better.len() - 1].kind@ == scored[scored.len() - 1].kind@);
    }
}

/// The order in which questions were answered does not matter: the same scores, in whatever
/// order, pass or fail alike.
pub proof fn order_does_not_matter(a: Seq<Scored>, b: Seq<Scored>)
    requires
        scored_models(a).to_multiset() == scored_models(b).to_multiset(),
    ensures
        passed(a) == passed(b),
{
    order_keeps_counts(a, b);
    order_keeps_bearable(a, b);
    order_keeps_bearable(b, a);
}

proof fn order_keeps_bearable(a: Seq<Scored>, b: Seq<Scored>)
    requires
        scored_models(a).to_multiset() == scored_models(b).to_multiset(),
    ensures
        (forall|i: int| 0 <= i < a.len() ==> is_bearable(#[trigger] a[i])) ==> forall|i: int|
            0 <= i < b.len() ==> is_bearable(#[trigger] b[i]),
{
    let (ma, mb) = (scored_models(a), scored_models(b));
    ma.to_multiset_ensures();
    mb.to_multiset_ensures();
    if forall|i: int| 0 <= i < a.len() ==> is_bearable(#[trigger] a[i]) {
        assert forall|i: int| 0 <= i < b.len() implies is_bearable(#[trigger] b[i]) by {
            assert(mb.contains(mb[i]));
            assert(mb.to_multiset().count(mb[i]) > 0);
            assert(ma.contains(mb[i]));
            let j = choose|j: int| 0 <= j < ma.len() && ma[j] == mb[i];
            assert(is_bearable(a[j]));
        }
    }
}

proof fn order_keeps_counts(a: Seq<Scored>, b: Seq<Scored>)
    requires
        scored_models(a).to_multiset() == scored_models(b).to_multiset(),
    ensures
        reasoned(a) == reasoned(b),
        weak(a) == weak(b),
    decreases a.len(),
{
    let (ma, mb) = (scored_models(a), scored_models(b));
    ma.to_multiset_ensures();
    mb.to_multiset_ensures();
    assert(ma.len() == mb.len());
    if a.len() > 0 {
        let n = a.len() - 1;
        assert(ma.contains(ma[n]));
        assert(ma.to_multiset().count(ma[n]) > 0);
        assert(mb.contains(ma[n]));
        let j = choose|j: int| 0 <= j < mb.len() && mb[j] == ma[n];
        assert(a.remove(n) =~= a.drop_last());
        assert(scored_models(a.remove(n)) =~= ma.remove(n));
        assert(scored_models(b.remove(j)) =~= mb.remove(j));
        order_keeps_counts(a.drop_last(), b.remove(j));
        counts_without(b, j);
        reveal_with_fuel(reasoned, 2);
        reveal_with_fuel(weak, 2);
        assert(seq![b[j]].drop_last() =~= Seq::empty());
        assert(a.last().kind@ == b[j].kind@ && a.last().score == b[j].score);
    }
}

proof fn counts_without(b: Seq<Scored>, j: int)
    requires
        0 <= j < b.len(),
    ensures
        reasoned(b) == reasoned(b.remove(j)) + reasoned(seq![b[j]]),
        weak(b) == weak(b.remove(j)) + weak(seq![b[j]]),
    decreases b.len(),
{
    reveal_with_fuel(reasoned, 2);
    reveal_with_fuel(weak, 2);
    assert(seq![b[j]].drop_last() =~= Seq::empty());
    if j == b.len() - 1 {
        assert(b.remove(j) =~= b.drop_last());
    } else {
        counts_without(b.drop_last(), j);
        assert(b.remove(j).drop_last() =~= b.drop_last().remove(j));
        assert(b.remove(j).last() == b.last());
    }
}

/// Whether every question left the quiz on an upheld dispute. No questions at all is a
/// pass, since nothing failed, which is right for a trivial diff and wrong here: disputing
/// your way to zero questions would clear a gate without answering anything.
pub fn nothing_was_answered(scores: &[Scored], questions: usize) -> (r: bool)
    ensures
        r == (scores@.len() == 0 && questions > 0),
{
    scores.len() == 0 && questions > 0
}

/// Whether a decline says anything about this diff. A reason that names a file or an
/// identifier from the change is a judgement someone can check. "Nothing worth asking" is
/// a sentence that fits any change at all, which is exactly what injected text would
/// produce.
pub fn trustworthy_decline(reason: &str, ai_hunks: &[Hunk]) -> (r: bool)
    ensures
        r == cites(reason@, hunk_models(ai_hunks@)),
{
    cites_the_diff(reason, ai_hunks)
}

// ---------------------------------------------------------------- divergence

/// What came of comparing a run with what the diff predicted of it.
#[derive(Debug)]
pub enum Noted {
    /// The comparison failed, so nothing was recorded; this says so.
    Failed(String),
    /// The run did what was predicted.
    Nothing,
    /// The run did something else, which is recorded; this says so.
    Recorded(String),
}

/// What is said where the comparison failed.
pub open spec fn failed_note(error: Seq<char>) -> Seq<char> {
    "  the divergence check failed, so nothing was recorded: "@ + error
}

/// What is said where the run diverged.
pub open spec fn diverged_note(what: Seq<char>) -> Seq<char> {
    "  the run diverged from what the diff predicted: "@ + what
        + "\n  recorded as an obligation — fix it, or withdraw the claim.\n"@
}

/// What is recorded where the run diverged.
pub open spec fn diverged_body(what: Seq<char>) -> Seq<char> {
    "run diverged from the prediction: "@ + what
}

/// The second pass on an exercise, given what the judge made of the run. A divergence is
/// not a failure of the answer: the respondent reported what the program did, which is the
/// job. It is a failure of the reading that produced the prediction, so it opens an
/// obligation rather than moving the score.
///
/// A failed call is a note, not an error: the label is already recorded, and losing the
/// gate over the pass that cannot change it would be the wrong trade.
pub fn check_divergence(
    records: &mut Records,
    q: &Question,
    outcome: Result<Divergence, String>,
    now: &str,
) -> (r: Noted)
    ensures
        match outcome {
            Err(e) => final(records)@ == old(records)@ && (r matches Noted::Failed(s) && s@
                == failed_note(e@)),
            Ok(d) => if d.diverged {
                &&& final(records)@ == with_obligation(
                    old(records)@,
                    q.id,
                    diverged_body(d.what@),
                    now@,
                )
                &&& r matches Noted::Recorded(s) && s@ == diverged_note(d.what@)
            } else {
                final(records)@ == old(records)@ && r is Nothing
            },
        },
        old(records)@.wf() ==> final(records)@.wf(),
{
    match outcome {
        Err(e) => Noted::Failed(
            "  the divergence check failed, so nothing was recorded: ".to_owned().concat(
                e.as_str(),
            ),
        ),
        Ok(d) => {
            if d.diverged {
                let body = "run diverged from the prediction: ".to_owned().concat(d.what.as_str());
                open_obligation(records, q.id, body.as_str(), now);
                Noted::Recorded(
                    "  the run diverged from what the diff predicted: ".to_owned().concat(
                        d.what.as_str(),
                    ).concat(
                        "\n  recorded as an obligation — fix it, or withdraw the claim.\n",
                    ),
                )
            } else {
                Noted::Nothing
            }
        },
    }
}

} // verus!
