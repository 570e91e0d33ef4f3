//! Offline stand-ins for the model.
//!
//! These exist so a gate can be exercised without spending a model call: generation
//! is the expensive half, and the states most likely to be broken in the display (a
//! call in flight, each verdict, a failure) are exactly the ones that a real judge
//! makes slow and expensive to reach.

use vstd::prelude::*;
use vstd::string::StringExecFns;
use crate::git::{hunk_models, Hunk, HunkModel};
use crate::llm::{
    generated_models, Context, Disputed, Divergence, Generated, GeneratedModel, Generation, Generator,
    Judge, Label, Verdict,
};
use crate::llm::generate::optional_text;
use crate::text::chars::to_chars;
use crate::text::number::{decimal, show_usize};
use crate::text::split::{at_most, owned, texts, trim, trimmed};

verus! {

/// Writes questions of a fixed shape.
#[derive(Debug)]
pub struct StubGenerator;

/// What stands for a reference answer.
pub open spec fn stub_reference() -> Seq<char> {
    "[stand-in] not a real reference answer"@
}

/// What stands for the last hint.
pub open spec fn stub_hint() -> Seq<char> {
    "[stand-in] half the answer"@
}

/// The question about intent.
pub open spec fn stub_intent(h: HunkModel, files: nat) -> GeneratedModel {
    GeneratedModel {
        kind: "intent"@,
        file: h.file,
        anchor: h.anchor,
        text: decimal(if files > 1 { files } else { 1 })
            + " files changed together here. What single change of intent required all of them, that you could not get from the title?"@,
        reference: stub_reference(),
        hints: seq![
            "Look at what the files have in common."@,
            "Start from the file with the most added lines."@,
            stub_hint(),
        ],
    }
}

/// The question that asks for a prediction.
pub open spec fn stub_prediction(h: HunkModel) -> GeneratedModel {
    GeneratedModel {
        kind: "prediction"@,
        file: h.file,
        anchor: h.anchor,
        text: "In "@ + h.file
            + ", what does the caller observe if this hunk's happy path does not run?"@,
        reference: stub_reference(),
        hints: seq!["Look at how control leaves the block."@, "Check the error branch."@, stub_hint()],
    }
}

/// The question that asks for an input.
pub open spec fn stub_adversarial(h: HunkModel) -> GeneratedModel {
    GeneratedModel {
        kind: "adversarial"@,
        file: h.file,
        anchor: h.anchor,
        text: "What input to "@ + h.file + " breaks this change?"@,
        reference: stub_reference(),
        hints: seq!["Consider the empty case."@, "Check the boundary values."@, stub_hint()],
    }
}

/// The question that asks to run the tests.
pub open spec fn stub_checkable(h: HunkModel, cmd: Seq<char>) -> GeneratedModel {
    GeneratedModel {
        kind: "checkable"@,
        file: h.file,
        anchor: h.anchor,
        text: "Run `"@ + cmd + "`. What does it report about this change?"@,
        reference: stub_reference(),
        hints: seq![
            "Run it and read the output."@,
            "`"@ + cmd + "` covers the changed paths."@,
            stub_hint(),
        ],
    }
}

/// The questions of a quiz of stand-ins, held to the ceiling of the band.
pub open spec fn stub_questions(
    hunks: Seq<HunkModel>,
    files: nat,
    test_command: Option<Seq<char>>,
    max: nat,
) -> Seq<GeneratedModel> {
    let first = hunks[0];
    let second = if hunks.len() > 1 { hunks[1] } else { hunks[0] };
    let three = seq![stub_intent(first, files), stub_prediction(first), stub_adversarial(second)];
    let all = match test_command {
        Some(cmd) => three.push(stub_checkable(first, cmd)),
        None => three,
    };
    at_most(all, if max > 1 { max } else { 1 })
}

fn question(
    kind: &str,
    h: &Hunk,
    text: String,
    hint_one: &str,
    hint_two: &str,
) -> (r: Generated)
    ensures
        r@ == (GeneratedModel {
            kind: kind@,
            file: h@.file,
            anchor: h@.anchor,
            text: text@,
            reference: stub_reference(),
            hints: seq![hint_one@, hint_two@, stub_hint()],
        }),
{
    let hints = owned(&[hint_one, hint_two, "[stand-in] half the answer"]);
    assert(texts(hints@) =~= seq![hint_one@, hint_two@, stub_hint()]);
    Generated {
        kind: kind.to_owned(),
        file: h.file.clone(),
        anchor: h.anchor.clone(),
        text,
        reference: "[stand-in] not a real reference answer".to_owned(),
        hints,
    }
}

impl Generator for StubGenerator {
    fn generate(&self, ctx: &Context) -> (r: Result<Generation, String>)
        ensures
            match r {
                Ok(Generation::Declined(reason)) => ctx.hunks@.len() == 0 && reason@
                    == "nothing worth asking"@,
                Ok(Generation::Questions(qs)) => ctx.hunks@.len() > 0 && generated_models(qs@)
                    == stub_questions(
                    hunk_models(ctx.hunks@),
                    ctx.all_files@.len(),
                    optional_text(ctx.test_command),
                    ctx.questions.1 as nat,
                ),
                Err(_) => false,
            },
    {
        if ctx.hunks.len() == 0 {
            return Ok(Generation::Declined("nothing worth asking".to_owned()));
        }
        let ghost hs = hunk_models(ctx.hunks@);
        let first = &ctx.hunks[0];
        let second = if ctx.hunks.len() > 1 { &ctx.hunks[1] } else { &ctx.hunks[0] };
        let files: usize = if ctx.all_files.len() > 1 { ctx.all_files.len() } else { 1 };
        let mut out: Vec<Generated> = Vec::new();
        let intent = show_usize(files).concat(
            " files changed together here. What single change of intent required all of them, that you could not get from the title?",
        );
        out.push(
            question(
                "intent",
                first,
                intent,
                "Look at what the files have in common.",
                "Start from the file with the most added lines.",
            ),
        );
        let prediction = "In ".to_owned().concat(first.file.as_str()).concat(
            ", what does the caller observe if this hunk's happy path does not run?",
        );
        out.push(
            question(
                "prediction",
                first,
                prediction,
                "Look at how control leaves the block.",
                "Check the error branch.",
            ),
        );
        let adversarial = "What input to ".to_owned().concat(second.file.as_str()).concat(
            " breaks this change?",
        );
        out.push(
            question(
                "adversarial",
                second,
                adversarial,
                "Consider the empty case.",
                "Check the boundary values.",
            ),
        );
        if let Some(cmd) = &ctx.test_command {
            let checkable = "Run `".to_owned().concat(cmd.as_str()).concat(
                "`. What does it report about this change?",
            );
            let covers = "`".to_owned().concat(cmd.as_str()).concat("` covers the changed paths.");
            out.push(
                question(
                    "checkable",
                    first,
                    checkable,
                    "Run it and read the output.",
                    covers.as_str(),
                ),
            );
        }
        let max: usize = if ctx.questions.1 > 1 { ctx.questions.1 } else { 1 };
        let ghost before = out@;
        if out.len() > max {
            out.truncate(max);
        }
        proof {
            let three = seq![
                stub_intent(hs[0], ctx.all_files@.len()),
                stub_prediction(hs[0]),
                stub_adversarial(if hs.len() > 1 { hs[1] } else { hs[0] }),
            ];
            match &ctx.test_command {
                Some(cmd) => {
                    assert(generated_models(before) =~= three.push(stub_checkable(hs[0], cmd@)));
                },
                None => {
                    assert(generated_models(before) =~= three);
                },
            }
            assert(generated_models(out@) =~= at_most(generated_models(before), max as nat));
        }
        Ok(Generation::Questions(out))
    }
}

/// A judge that returns scripted verdicts instead of grading.
///
/// Grading by length cannot reach `partial` or a failure, so it cannot exercise what
/// is built around them. A script can.
#[derive(Debug)]
pub struct StubJudge {
    /// Verdicts to return in order. Once exhausted, the last one repeats. `None` is a
    /// failed call.
    pub script: Vec<Option<Label>>,
    /// Simulated latency in milliseconds, so that a call in flight is observable. The
    /// caller waits.
    pub delay: u64,
    /// What to rule on a dispute. `None`, the only thing an offline run ever produces,
    /// rejects it: a stand-in that waived questions would be a way to clear a gate
    /// without answering anything.
    pub dispute_ruling: Option<String>,
}

impl Default for StubJudge {
    /// By length: a real attempt passes, a one-liner does not.
    fn default() -> (r: Self)
        ensures
            r.script@.len() == 0,
            r.delay == 0,
            r.dispute_ruling is None,
    {
        StubJudge { script: Vec::new(), delay: 0, dispute_ruling: None }
    }
}

/// What a script says next, where there is one.
pub open spec fn scripted_next(script: Seq<Option<Label>>) -> Option<Option<Label>> {
    if script.len() > 0 {
        Some(script[0])
    } else {
        None
    }
}

/// What is left of a script afterwards: the last entry repeats.
pub open spec fn scripted_rest(script: Seq<Option<Label>>) -> Seq<Option<Label>> {
    if script.len() > 1 {
        script.skip(1)
    } else {
        script
    }
}

impl StubJudge {
    /// A judge that returns these verdicts.
    pub fn scripted(labels: Vec<Option<Label>>) -> (r: Self)
        ensures
            r.script@ == labels@,
            r.delay == 0,
            r.dispute_ruling is None,
    {
        StubJudge { script: labels, delay: 0, dispute_ruling: None }
    }

    /// The same judge, upholding every dispute as this.
    pub fn upholding(self, kind: &str) -> (r: Self)
        ensures
            r.script@ == self.script@,
            r.delay == self.delay,
            optional_text(r.dispute_ruling) == Some(kind@),
    {
        StubJudge { script: self.script, delay: self.delay, dispute_ruling: Some(kind.to_owned()) }
    }

    /// The same judge, slower by this many milliseconds.
    pub fn with_delay(self, delay: u64) -> (r: Self)
        ensures
            r.script@ == self.script@,
            r.delay == delay,
            r.dispute_ruling == self.dispute_ruling,
    {
        StubJudge { script: self.script, delay, dispute_ruling: self.dispute_ruling }
    }
}

/// The grade of an answer where there is no script.
pub open spec fn graded_by_length(answer: Seq<char>) -> Label {
    if trimmed(answer).len() > 40 {
        Label::Demonstrates
    } else {
        Label::Restates
    }
}

/// What is said of a grade where there is no script.
pub open spec fn length_feedback(answer: Seq<char>) -> Seq<char> {
    if trimmed(answer).len() > 40 {
        "[offline] accepted on length — no real grading happened."@
    } else {
        "[offline] too short to be a real answer."@
    }
}

impl Judge for StubJudge {
    fn judge(&mut self, _diff: &str, _question: &str, answer: &str) -> (r: Result<Verdict, String>)
        ensures
            final(self).script@ == scripted_rest(old(self).script@),
            final(self).delay == old(self).delay,
            final(self).dispute_ruling == old(self).dispute_ruling,
            match scripted_next(old(self).script@) {
                Some(Some(label)) => r matches Ok(v) && v.label == label && v.feedback@
                    == "[offline] scripted label: "@ + label.name(),
                Some(None) => r matches Err(e) && e@ == "[offline] scripted failure"@,
                None => r matches Ok(v) && v.label == graded_by_length(answer@) && v.feedback@
                    == length_feedback(answer@),
            },
    {
        if self.script.len() > 0 {
            let next: Option<Label> = self.script[0];
            if self.script.len() > 1 {
                let _ = self.script.remove(0);
                assert(self.script@ =~= scripted_rest(old(self).script@));
            }
            match next {
                Some(label) => Ok(
                    Verdict {
                        label,
                        feedback: "[offline] scripted label: ".to_owned().concat(label.as_str()),
                    },
                ),
                None => Err("[offline] scripted failure".to_owned()),
            }
        } else if to_chars(trim(answer).as_str()).len() > 40 {
            Ok(
                Verdict {
                    label: Label::Demonstrates,
                    feedback: "[offline] accepted on length — no real grading happened.".to_owned(),
                },
            )
        } else {
            Ok(
                Verdict {
                    label: Label::Restates,
                    feedback: "[offline] too short to be a real answer.".to_owned(),
                },
            )
        }
    }

    fn dispute(&mut self, _question: &str, _reference: &str, _claim: &str) -> (r: Result<
        Disputed,
        String,
    >)
        ensures
            *final(self) == *old(self),
            r matches Ok(d) && match old(self).dispute_ruling {
                Some(kind) => d.upheld && d.kind@ == kind@ && d.feedback@
                    == "[offline] scripted ruling: upheld as "@ + kind@,
                None => !d.upheld && d.kind@.len() == 0 && d.feedback@
                    == "[offline] disputes are not judged without a model."@,
            },
    {
        match &self.dispute_ruling {
            Some(kind) => Ok(
                Disputed {
                    upheld: true,
                    kind: kind.clone(),
                    feedback: "[offline] scripted ruling: upheld as ".to_owned().concat(
                        kind.as_str(),
                    ),
                },
            ),
            None => Ok(
                Disputed {
                    upheld: false,
                    kind: String::new(),
                    feedback: "[offline] disputes are not judged without a model.".to_owned(),
                },
            ),
        }
    }

    /// Without a model no run is found to diverge.
    fn divergence(&mut self, _question: &str, _prediction: &str, _observation: &str) -> (r: Result<
        Divergence,
        String,
    >)
        ensures
            *final(self) == *old(self),
            r matches Ok(d) && !d.diverged && d.what@.len() == 0,
    {
        Ok(Divergence { diverged: false, what: String::new() })
    }

    fn model(&self) -> (r: &str)
        ensures
            r@ == "offline-stub"@,
    {
        "offline-stub"
    }
}

/// The stand-ins answer to the band as well, and start with the question about intent.
pub proof fn quiz_of_stand_ins_keeps_to_the_band(
    hunks: Seq<HunkModel>,
    files: nat,
    test_command: Option<Seq<char>>,
    max: nat,
)
    requires
        hunks.len() > 0,
        max > 0,
    ensures
        0 < stub_questions(hunks, files, test_command, max).len() <= max,
        stub_questions(hunks, files, test_command, max)[0].kind == "intent"@,
{
}

} // verus!
