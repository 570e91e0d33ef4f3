//! Grading. The reference answer is deliberately absent from what the grader sees.

use vstd::prelude::*;
use vstd::string::StringExecFns;
use crate::llm::{Disputed, Divergence, Label, Verdict};
use crate::llm::cli::Cli;
use crate::text::chars::same;
use crate::text::split::{join, joined, texts, trim, trimmed};

verus! {

/// The judge that asks the model.
#[derive(Debug)]
pub struct CliJudge {
    pub cli: Cli,
    pub model: String,
    pub diff: String,
    /// The title and commit subjects. The respondent can read these, so an answer that
    /// merely echoes them demonstrates nothing.
    pub restatement_sources: Vec<String>,
}

/// The rules of grading.
pub const SYSTEM: &'static str =
    "You grade a respondent's answer to a question about a code change, against the \
CODE — you are given the diff and nothing else. There is a reference answer on \
file and you are deliberately not shown it: it was written by a model, it may be \
wrong, and grading toward it rewards agreement over understanding.

Write your own answer to the question FIRST, from the diff. Then judge the \
respondent's answer against the code and against yours.

Labels:
  wrong        — contradicts the code, or is too vague to be checked.
  restates     — accurately paraphrases what the code does, and stops there.
  partial      — names a real consequence, invariant or failure mode, but misses \
                 or muddles a substantial part of it.
  demonstrates — shows understanding of what this change causes: consequences, \
                 invariants, failure modes, or facts not literally present in \
                 the diff.

Three rules that override the rest:

- Score `wrong` if the answer would be equally true of an arbitrary code change. \
  Generic statements about rollbacks, validation, or concurrency that name \
  nothing specific to THIS diff are not answers.
- Score `wrong` if the answer only restates the change's stated purpose. The \
  respondent was given the title and the commit subjects; repeating them back is \
  not understanding. An answer about intent must say something those do not, and \
  must connect to what the code actually does.
- Length is not quality. One sentence naming the consequence and pointing at a \
  line is a complete answer and should score `demonstrates`. Do not reward \
  volume, hedging, or restatement of the question.";

/// The rules of ruling on a dispute.
pub const DISPUTE_SYSTEM: &'static str =
    "The respondent claims a question's premise, its reference answer, or the code \
itself is wrong. Evaluate the claim on its merits against the diff.

Uphold it ONLY if you can state the concrete failing input, or quote the specific \
line that contradicts the premise. A plausible-sounding objection that you cannot \
ground in the diff is not upheld. Disputing is cheap for the respondent and \
upholding is not — be hard to convince.

kind:
  premise   — the question assumes something the code does not do.
  reference — the question is fair but the stored answer is wrong.
  code_bug  — the code itself is wrong, and the respondent has identified it.";

/// The rules of comparing a run with what was predicted of it.
pub const DIVERGENCE_SYSTEM: &'static str =
    "An `exercise` asked the respondent to run the real program and report what \
happened. You are given what a careful reader of the diff PREDICTED the run \
would print, and what the respondent reports it actually printed.

Say only whether the two diverge on something that matters: a different value, a \
different branch taken, an error where none was predicted, nothing happening \
where something was predicted. Wording, formatting and detail the prediction \
did not mention are not divergences.

You are not grading the respondent. The observation is evidence and the prediction \
is the claim being tested — if they disagree, the prediction is what was wrong, \
and `what` states the disagreement in one sentence.";

/// The shape of a grade. The order of its fields matters: the model writes its own
/// answer and its reasoning before it commits to a label.
pub const ANSWER_SHAPE: &'static str = r#"{
  "own_answer": "your own answer to the question, written from the diff",
  "justification": "why the respondent's answer earns its label",
  "label": "wrong | restates | partial | demonstrates",
  "feedback": "one or two sentences for the respondent"
}"#;

/// The shape of a ruling. The reasoning is there so that the model has to ground the
/// claim before it commits to upholding it; nothing reads it.
pub const DISPUTE_SHAPE: &'static str = r#"{
  "reasoning": "the concrete failing input, or the line that contradicts the premise",
  "upheld": false,
  "kind": "premise | reference | code_bug",
  "feedback": "one or two sentences for the respondent"
}"#;

/// The shape of a comparison.
pub const DIVERGENCE_SHAPE: &'static str = r#"{
  "reasoning": "what the prediction claims, and what the observation shows",
  "diverged": false,
  "what": "one sentence naming the disagreement, or an empty string"
}"#;

// ---------------------------------------------------------------- replies

/// The label that a word stands for; what is no label is wrong.
pub open spec fn label_named(s: Seq<char>) -> Label {
    if s == "demonstrates"@ {
        Label::Demonstrates
    } else if s == "partial"@ {
        Label::Partial
    } else if s == "restates"@ {
        Label::Restates
    } else {
        Label::Wrong
    }
}

/// The label that a word stands for; what is no label is wrong.
pub fn parse_label(s: &str) -> (r: Label)
    ensures
        r == label_named(s@),
{
    if same(s, "demonstrates") {
        Label::Demonstrates
    } else if same(s, "partial") {
        Label::Partial
    } else if same(s, "restates") {
        Label::Restates
    } else {
        Label::Wrong
    }
}

/// Reading the name of a label gives the label.
pub proof fn labels_read_back(l: Label)
    ensures
        label_named(l.name()) == l,
{
    reveal_strlit("wrong");
    reveal_strlit("restates");
    reveal_strlit("partial");
    reveal_strlit("demonstrates");
    assert("wrong"@.len() != "restates"@.len());
    assert("partial"@[0] == 'p');
    assert("restates"@[0] == 'r');
    assert("demonstrates"@[0] == 'd');
    assert("wrong"@[0] == 'w');
}

/// A grade as it came back.
#[derive(Debug)]
pub struct Graded {
    pub label: String,
    pub feedback: String,
}

/// A ruling as it came back.
#[derive(Debug)]
pub struct DisputeReply {
    pub upheld: bool,
    pub kind: String,
    pub feedback: String,
}

/// A comparison as it came back.
#[derive(Debug)]
pub struct DivergenceReply {
    pub diverged: bool,
    pub what: String,
}

/// Whether a dispute can be upheld as this.
pub open spec fn is_dispute_kind(kind: Seq<char>) -> bool {
    kind == "premise"@ || kind == "reference"@ || kind == "code_bug"@
}

/// How often a `partial` grade is repeated.
pub const REPEATS: usize = 2;

/// How many labels score less than `points`.
pub open spec fn count_below(labels: Seq<Label>, points: int) -> int
    decreases labels.len(),
{
    if labels.len() == 0 {
        0
    } else {
        count_below(labels.drop_last(), points) + if labels.last().points() < points {
            1int
        } else {
            0int
        }
    }
}

/// The label in the middle, in the order of scores; of an even number of labels the
/// higher of the two in the middle.
pub open spec fn median(labels: Seq<Label>) -> Label {
    let middle = labels.len() as int / 2;
    if middle < count_below(labels, Label::Restates.points() as int) {
        Label::Wrong
    } else if middle < count_below(labels, Label::Partial.points() as int) {
        Label::Restates
    } else if middle < count_below(labels, Label::Demonstrates.points() as int) {
        Label::Partial
    } else {
        Label::Demonstrates
    }
}

/// The labels of a list of grades.
pub open spec fn labels_of(grades: Seq<Graded>) -> Seq<Label> {
    Seq::new(grades.len(), |i: int| label_named(grades[i].label@))
}

/// The feedback to give: that of the last grade that is not `partial`, or else `first`.
pub open spec fn feedback_of(first: Seq<char>, grades: Seq<Graded>) -> Seq<char>
    decreases grades.len(),
{
    if grades.len() == 0 {
        first
    } else if label_named(grades.last().label@) != Label::Partial {
        grades.last().feedback@
    } else {
        feedback_of(first, grades.drop_last())
    }
}

/// The grade that a first grade and repeats of it settle on. `partial` is the label
/// that decides a pass, so it is the one worth repeating; any other stands as it is, and so
/// does `partial` where one of its two repeats failed.
pub open spec fn settled_label(first: Label, again: Seq<Label>) -> Label {
    if first == Label::Partial && again.len() >= REPEATS {
        median(seq![Label::Partial] + again)
    } else {
        first
    }
}

/// The feedback that goes with the grade that is settled on.
pub open spec fn settled_feedback(first: Graded, again: Seq<Graded>) -> Seq<char> {
    if label_named(first.label@) == Label::Partial {
        feedback_of(first.feedback@, again)
    } else {
        first.feedback@
    }
}

fn count_lower(labels: &[Label], points: u32) -> (r: usize)
    ensures
        r == count_below(labels@, points as int),
{
    let mut n: usize = 0;
    let mut i: usize = 0;
    proof {
        assert(labels@.take(0) =~= Seq::empty());
    }
    while i < labels.len()
        invariant
            i <= labels@.len(),
            n <= i,
            n == count_below(labels@.take(i as int), points as int),
        decreases labels@.len() - i,
    {
        proof {
            assert(labels@.take(i + 1).drop_last() =~= labels@.take(i as int));
        }
        if labels[i].score() < points {
            n += 1;
        }
        i += 1;
    }
    proof {
        assert(labels@.take(i as int) =~= labels@);
    }
    n
}

fn find_median(labels: &[Label]) -> (r: Label)
    ensures
        r == median(labels@),
{
    let middle: usize = labels.len() / 2;
    if middle < count_lower(labels, 3) {
        Label::Wrong
    } else if middle < count_lower(labels, 6) {
        Label::Restates
    } else if middle < count_lower(labels, 9) {
        Label::Partial
    } else {
        Label::Demonstrates
    }
}

/// One label out of line does not outvote two that agree.
pub proof fn two_of_three_decide(a: Label, b: Label)
    ensures
        median(seq![Label::Partial, a, a]) == a,
        median(seq![Label::Partial, Label::Partial, b]) == Label::Partial,
        median(seq![Label::Partial, b, Label::Partial]) == Label::Partial,
{
    reveal_with_fuel(count_below, 4);
    let x = seq![Label::Partial, a, a];
    assert(x.drop_last() =~= seq![Label::Partial, a]);
    assert(x.drop_last().drop_last() =~= seq![Label::Partial]);
    assert(x.drop_last().drop_last().drop_last() =~= Seq::<Label>::empty());
    let y = seq![Label::Partial, Label::Partial, b];
    assert(y.drop_last() =~= seq![Label::Partial, Label::Partial]);
    assert(y.drop_last().drop_last() =~= seq![Label::Partial]);
    assert(y.drop_last().drop_last().drop_last() =~= Seq::<Label>::empty());
    let z = seq![Label::Partial, b, Label::Partial];
    assert(z.drop_last() =~= seq![Label::Partial, b]);
    assert(z.drop_last().drop_last() =~= seq![Label::Partial]);
    assert(z.drop_last().drop_last().drop_last() =~= Seq::<Label>::empty());
}

// ---------------------------------------------------------------- prompts

/// Texts behind a dash each, in one text.
pub open spec fn listed_sources(sources: Seq<Seq<char>>) -> Seq<Seq<char>> {
    Seq::new(sources.len(), |i: int| "- "@ + sources[i])
}

/// What the respondent could echo without having read the diff.
pub open spec fn sources_section(sources: Seq<Seq<char>>) -> Seq<char> {
    if sources.len() == 0 {
        Seq::empty()
    } else {
        "\n\n# The respondent can already read all of this\n\n"@ + joined(
            listed_sources(sources),
            "\n"@,
        )
    }
}

/// What the grader is told of its task and of the change.
pub open spec fn grade_system(diff: Seq<char>, sources: Seq<Seq<char>>) -> Seq<char> {
    SYSTEM@ + "\n\n# Reply with exactly this shape\n\n"@ + ANSWER_SHAPE@ + sources_section(sources)
        + "\n\n# The diff\n\n"@ + diff
}

/// What the grader is told of an answer.
pub open spec fn grade_user(question: Seq<char>, answer: Seq<char>) -> Seq<char> {
    "# Question\n\n"@ + question + "\n\n# The respondent's answer\n\n"@ + answer
}

/// What is told of the task of ruling on a dispute.
pub open spec fn dispute_system(diff: Seq<char>) -> Seq<char> {
    DISPUTE_SYSTEM@ + "\n\n# Reply with exactly this shape\n\n"@ + DISPUTE_SHAPE@
        + "\n\n# The diff\n\n"@ + diff
}

/// What is told of a claim.
pub open spec fn dispute_user(question: Seq<char>, reference: Seq<char>, claim: Seq<char>) -> Seq<
    char,
> {
    "# Question\n\n"@ + question + "\n\n# Stored reference answer\n\n"@ + reference
        + "\n\n# The respondent's claim\n\n"@ + claim
}

/// What is told of the task of comparing a run with its prediction.
pub open spec fn divergence_system(diff: Seq<char>) -> Seq<char> {
    DIVERGENCE_SYSTEM@ + "\n\n# Reply with exactly this shape\n\n"@ + DIVERGENCE_SHAPE@
        + "\n\n# The diff\n\n"@ + diff
}

/// What is told of a run.
pub open spec fn divergence_user(
    question: Seq<char>,
    prediction: Seq<char>,
    observation: Seq<char>,
) -> Seq<char> {
    "# The exercise\n\n"@ + question + "\n\n# What the run was predicted to print\n\n"@ + prediction
        + "\n\n# What the respondent reports it printed\n\n"@ + observation
}

fn write_sources(sources: &[String]) -> (r: String)
    ensures
        r@ == sources_section(texts(sources@)),
{
    if sources.len() == 0 {
        return String::new();
    }
    let mut items: Vec<String> = Vec::new();
    let mut i: usize = 0;
    while i < sources.len()
        invariant
            i <= sources@.len(),
            items@.len() == i,
            forall|j: int| 0 <= j < i ==> items@[j]@ == "- "@ + sources@[j]@,
        decreases sources@.len() - i,
    {
        items.push("- ".to_owned().concat(sources[i].as_str()));
        i += 1;
    }
    assert(texts(items@) =~= listed_sources(texts(sources@)));
    "\n\n# The respondent can already read all of this\n\n".to_owned().concat(
        join(&items, "\n").as_str(),
    )
}

impl CliJudge {
    /// The two halves of the prompt that grades an answer. The reference answer is no
    /// part of it.
    pub fn grade_once(&self, question: &str, answer: &str) -> (r: (String, String))
        ensures
            r.0@ == grade_system(self.diff@, texts(self.restatement_sources@)),
            r.1@ == grade_user(question@, answer@),
    {
        let system = SYSTEM.to_owned().concat("\n\n# Reply with exactly this shape\n\n").concat(
            ANSWER_SHAPE,
        ).concat(write_sources(&self.restatement_sources).as_str()).concat(
            "\n\n# The diff\n\n",
        ).concat(self.diff.as_str());
        let user = "# Question\n\n".to_owned().concat(question).concat(
            "\n\n# The respondent's answer\n\n",
        ).concat(answer);
        (system, user)
    }

    /// How often a first grade is to be repeated: twice where it is `partial`, the label that
    /// decides a pass, and otherwise not at all.
    pub fn repeats(&self, first: &Graded) -> (r: usize)
        ensures
            r == if label_named(first.label@) == Label::Partial {
                REPEATS
            } else {
                0
            },
    {
        if parse_label(first.label.as_str()) == Label::Partial {
            REPEATS
        } else {
            0
        }
    }

    /// The grade that a first grade settles on, with those of its repeats that did not
    /// fail: a failed repeat keeps the first label and does not fail the answer.
    pub fn judge(&self, first: Graded, again: Vec<Graded>) -> (r: Verdict)
        ensures
            r.label == settled_label(label_named(first.label@), labels_of(again@)),
            label_named(first.label@) == Label::Partial && again@.len() < REPEATS ==> r.label
                == Label::Partial,
            r.feedback@ == settled_feedback(first, again@),
    {
        let label = parse_label(first.label.as_str());
        if label != Label::Partial {
            return Verdict { label, feedback: first.feedback };
        }
        let mut labels: Vec<Label> = Vec::new();
        labels.push(Label::Partial);
        let mut feedback = first.feedback.clone();
        let mut i: usize = 0;
        proof {
            assert(again@.take(0) =~= Seq::empty());
            assert(labels@ =~= seq![Label::Partial] + labels_of(again@.take(0)));
        }
        while i < again.len()
            invariant
                i <= again@.len(),
                labels@ == seq![Label::Partial] + labels_of(again@.take(i as int)),
                feedback@ == feedback_of(first.feedback@, again@.take(i as int)),
            decreases again@.len() - i,
        {
            let l = parse_label(again[i].label.as_str());
            proof {
                assert(again@.take(i + 1).drop_last() =~= again@.take(i as int));
            }
            if l != Label::Partial {
                feedback = again[i].feedback.clone();
            }
            labels.push(l);
            proof {
                assert(labels@ =~= seq![Label::Partial] + labels_of(again@.take(i + 1)));
            }
            i += 1;
        }
        proof {
            assert(again@.take(i as int) =~= again@);
        }
        let label = if again.len() < REPEATS {
            Label::Partial
        } else {
            find_median(&labels)
        };
        Verdict { label, feedback }
    }

    /// The two halves of the prompt that rules on a dispute.
    pub fn dispute_once(&self, question: &str, reference: &str, claim: &str) -> (r: (
        String,
        String,
    ))
        ensures
            r.0@ == dispute_system(self.diff@),
            r.1@ == dispute_user(question@, reference@, claim@),
    {
        let system = DISPUTE_SYSTEM.to_owned().concat(
            "\n\n# Reply with exactly this shape\n\n",
        ).concat(DISPUTE_SHAPE).concat("\n\n# The diff\n\n").concat(self.diff.as_str());
        let user = "# Question\n\n".to_owned().concat(question).concat(
            "\n\n# Stored reference answer\n\n",
        ).concat(reference).concat("\n\n# The respondent's claim\n\n").concat(claim);
        (system, user)
    }

    /// What a ruling amounts to. An upheld dispute with no kind would silently become
    /// one that drops the question, so what is not recognised is not upheld.
    pub fn dispute(&self, reply: DisputeReply) -> (r: Disputed)
        ensures
            r.upheld == (reply.upheld && is_dispute_kind(reply.kind@)),
            r.kind == reply.kind,
            r.feedback == reply.feedback,
    {
        let known = same(reply.kind.as_str(), "premise") || same(reply.kind.as_str(), "reference")
            || same(reply.kind.as_str(), "code_bug");
        Disputed { upheld: reply.upheld && known, kind: reply.kind, feedback: reply.feedback }
    }

    /// The two halves of the prompt that compares a run with its prediction.
    pub fn divergence_once(&self, question: &str, prediction: &str, observation: &str) -> (r: (
        String,
        String,
    ))
        ensures
            r.0@ == divergence_system(self.diff@),
            r.1@ == divergence_user(question@, prediction@, observation@),
    {
        let system = DIVERGENCE_SYSTEM.to_owned().concat(
            "\n\n# Reply with exactly this shape\n\n",
        ).concat(DIVERGENCE_SHAPE).concat("\n\n# The diff\n\n").concat(self.diff.as_str());
        let user = "# The exercise\n\n".to_owned().concat(question).concat(
            "\n\n# What the run was predicted to print\n\n",
        ).concat(prediction).concat("\n\n# What the respondent reports it printed\n\n").concat(
            observation,
        );
        (system, user)
    }

    /// What a comparison amounts to. A divergence with nothing said about it opens an
    /// obligation nobody can settle, so it is none.
    pub fn divergence(&self, reply: DivergenceReply) -> (r: Divergence)
        ensures
            r.diverged == (reply.diverged && trimmed(reply.what@).len() > 0),
            r.what == reply.what,
    {
        let said = !trim(reply.what.as_str()).as_str().is_empty();
        Divergence { diverged: reply.diverged && said, what: reply.what }
    }

    pub fn model(&self) -> (r: &str)
        ensures
            r@ == self.model@,
    {
        self.model.as_str()
    }
}

} // verus!
