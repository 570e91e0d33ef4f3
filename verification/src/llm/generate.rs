//! Questions from the assisted hunks plus repository context.

use vstd::prelude::*;
use vstd::string::StringExecFns;
use crate::git::{hunk_models, Hunk, HunkModel};
use crate::llm::{Context, Generated, Generation};
use crate::llm::cli::Cli;
use crate::text::chars::same;
use crate::text::number::{decimal, show_usize};
use crate::text::split::{join, joined, texts};

verus! {

/// The generator that asks the model.
#[derive(Debug)]
pub struct CliGenerator {
    pub cli: Cli,
    pub model: String,
}

/// The system prompt up to the least number of questions.
pub const OPENING: &'static str =
    "You write review questions for a pull request. You see the changed hunks, the \
change's stated purpose, and static repository context — never the session that \
produced the code, so do not assume any reasoning behind it.

Produce between ";

/// The system prompt between the numbers that bound the range and the one it explains.
pub const RANGE: &'static str = " questions that cannot be answered by paraphrasing \
anything you were given. The range is how much distinct change is in front of \
you, not a target: ask ";

/// The rest of the system prompt.
pub const RULES: &'static str = ". A padded question is worse than a \
missing one — it teaches the respondent the quiz is noise.

The FIRST question must be `intent`, and there must be exactly one. It tests \
whether the respondent understands what this change is *for* — something they \
cannot answer by reading one hunk, and cannot answer from the title or a commit \
subject, because those are handed to them too. Make it require relating at least \
two files or hunks. Good shapes:
  - these files changed together; what single change of intent required all of them
  - which of these changes could be dropped and still deliver the goal
  - what would you expect this change to have touched that it deliberately did not
  - what can a caller do now that they could not before
Never ask 'what does this PR do' or 'summarise this change'.

The remaining questions come from, in this order:
  checkable — the respondent obtains the answer by RUNNING something. Use only a \
    command given to you in the context. If none was given, do not use this kind.
  prediction — 'if X were Y, what does the caller at this line observe'.
  adversarial — 'what input breaks this'.
  cross_cutting — 'what at <this call site> assumes this'. Use ONLY where a call \
    site appears in the context. Never invent a caller.
  shadowed — 'this guard now runs before the dispatch below it; name something \
    that used to be handled there and say what happens to it now'. Use ONLY \
    where a guard appears in the shadowed context, and name a line from the \
    dispatch quoted under it. The reference answer is read off those lines, not \
    reasoned about: which of them the guard's condition now prevents reaching. \
    Never ask this of code the change itself added below the guard.
  justification — 'why this over the obvious alternative'.

Never ask what a function does. Demand a specific value, branch, or call site — \
never 'what could go wrong'. Anchor each question to the hunk it came from by \
copying that hunk's anchor string verbatim; for the intent question, use the \
anchor of whichever hunk it leans on most.

For each question give a reference answer and three hints of increasing strength: \
a nudge, a pointer to specific lines, then half the answer.

If nothing here is worth asking — a version bump, a mechanical rename, a config \
tweak — set skip to true and give a reason instead of inventing questions.";

/// The shape of a reply. It cannot be enforced, so it is stated in the prompt and the
/// reply is validated on the way back in.
pub const SHAPE: &'static str = r#"{
  "skip": false,
  "reason": "",
  "questions": [
    {
      "kind": "intent | checkable | prediction | adversarial | cross_cutting | shadowed | justification",
      "file": "path/to/file",
      "anchor": "the anchor string copied verbatim from the hunk",
      "text": "the question",
      "reference": "the reference answer",
      "hints": ["a nudge", "a pointer to specific lines", "half the answer"]
    }
  ]
}"#;

/// The system prompt for a band.
pub open spec fn system_text(min: nat, max: nat) -> Seq<char> {
    OPENING@ + decimal(min) + " and "@ + decimal(max) + RANGE@ + decimal(max)
        + " only if there are "@ + decimal(max) + " separate things worth understanding, and "@
        + decimal(min) + " if there are "@ + decimal(min) + RULES@
        + "\n\n# Reply with exactly this shape\n\n"@ + SHAPE@
}

/// The system prompt for a band. The band is stated in the prompt rather than enforced
/// only on the way back: a generator told to write four questions writes four, and the
/// last two are padding it had to invent.
pub fn system_prompt(min: usize, max: usize) -> (r: String)
    ensures
        r@ == system_text(min as nat, max as nat),
{
    let least = show_usize(min);
    let most = show_usize(max);
    OPENING.to_owned().concat(least.as_str()).concat(" and ").concat(most.as_str()).concat(
        RANGE,
    ).concat(most.as_str()).concat(" only if there are ").concat(most.as_str()).concat(
        " separate things worth understanding, and ",
    ).concat(least.as_str()).concat(" if there are ").concat(least.as_str()).concat(RULES).concat(
        "\n\n# Reply with exactly this shape\n\n",
    ).concat(SHAPE)
}

/// What the generator sent back.
pub struct Reply {
    pub skip: bool,
    pub reason: String,
    pub questions: Vec<Generated>,
}

/// Where the first question about intent stands, or the number of questions where
/// there is none.
pub open spec fn intent_position(qs: Seq<Generated>) -> int
    decreases qs.len(),
{
    if qs.len() == 0 || qs[0].kind@ == "intent"@ {
        0
    } else {
        1 + intent_position(qs.skip(1))
    }
}

/// Questions with the first one about intent changed to the front.
pub open spec fn intent_first(qs: Seq<Generated>) -> Seq<Generated> {
    let i = intent_position(qs);
    if i < qs.len() {
        qs.update(0, qs[i]).update(i, qs[0])
    } else {
        qs
    }
}

/// Questions held to a ceiling. The one about intent is the one that no other hunk can
/// supply, so it survives wherever the generator happened to put it.
pub open spec fn fitted(qs: Seq<Generated>, max: nat) -> Seq<Generated> {
    if qs.len() > max {
        intent_first(qs).take(max as int)
    } else {
        qs
    }
}

proof fn intent_position_meaning(qs: Seq<Generated>)
    ensures
        0 <= intent_position(qs) <= qs.len(),
        forall|j: int| 0 <= j < intent_position(qs) ==> (#[trigger] qs[j]).kind@ != "intent"@,
        intent_position(qs) < qs.len() ==> qs[intent_position(qs)].kind@ == "intent"@,
    decreases qs.len(),
{
    if qs.len() > 0 && qs[0].kind@ != "intent"@ {
        intent_position_meaning(qs.skip(1));
        assert forall|j: int| 0 <= j < intent_position(qs) implies (#[trigger] qs[j]).kind@
            != "intent"@ by {
            if j > 0 {
                assert(qs.skip(1)[j - 1] == qs[j]);
            }
        }
    }
}

fn find_intent(qs: &[Generated]) -> (r: usize)
    ensures
        r == intent_position(qs@),
        r <= qs@.len(),
{
    let mut i: usize = 0;
    while i < qs.len() && !same(qs[i].kind.as_str(), "intent")
        invariant
            i <= qs@.len(),
            forall|j: int| 0 <= j < i ==> (#[trigger] qs@[j]).kind@ != "intent"@,
        decreases qs@.len() - i,
    {
        i += 1;
    }
    proof {
        intent_position_meaning(qs@);
        let p = intent_position(qs@);
        if p < i {
            assert(qs@[p].kind@ != "intent"@);
        }
        if i < p {
            assert(qs@[i as int].kind@ != "intent"@);
        }
    }
    i
}

/// What is said of a reply with `n` questions, where it does not keep to the band.
pub open spec fn fit_remark(n: nat, min: nat, max: nat) -> Option<Seq<char>> {
    if n > max {
        Some(
            "  generator returned "@ + decimal(n) + " questions for a ceiling of "@ + decimal(max)
                + " — keeping "@ + decimal(max),
        )
    } else if n < min {
        Some(
            "  note: "@ + decimal(n) + " questions for a floor of "@ + decimal(min)
                + " — the generator found less to ask about"@,
        )
    } else {
        None
    }
}

/// What is said of a reply with `n` questions, where it does not keep to the band.
fn fit_note(n: usize, min: usize, max: usize) -> (r: Option<String>)
    ensures
        optional_text(r) == fit_remark(n as nat, min as nat, max as nat),
{
    let count = show_usize(n);
    if n > max {
        let most = show_usize(max);
        Some(
            "  generator returned ".to_owned().concat(count.as_str()).concat(
                " questions for a ceiling of ",
            ).concat(most.as_str()).concat(" — keeping ").concat(most.as_str()),
        )
    } else if n < min {
        Some(
            "  note: ".to_owned().concat(count.as_str()).concat(
                " questions for a floor of ",
            ).concat(show_usize(min).as_str()).concat(
                " — the generator found less to ask about",
            ),
        )
    } else {
        None
    }
}

/// Holds a reply to the band, and says where it did not keep to it. Over the ceiling is
/// trimmed; under the floor is kept, since only the generator can tell a missing
/// question from a padded one and it was told to prefer the former.
pub fn fit(questions: Vec<Generated>, min: usize, max: usize) -> (r: (
    Vec<Generated>,
    Option<String>,
))
    ensures
        r.0@ == fitted(questions@, max as nat),
        optional_text(r.1) == fit_remark(questions@.len(), min as nat, max as nat),
{
    let remark = fit_note(questions.len(), min, max);
    let mut qs = questions;
    if qs.len() > max {
        let i: usize = find_intent(&qs);
        if 0 < i && i < qs.len() {
            let ghost before = qs@;
            let intent = qs.remove(i);
            let first = qs.remove(0);
            qs.insert(0, intent);
            qs.insert(i, first);
            assert(qs@ =~= intent_first(before));
        } else {
            assert(qs@ =~= intent_first(qs@));
        }
        qs.truncate(max);
        assert(qs@ =~= fitted(questions@, max as nat));
    }
    (qs, remark)
}

/// Trimming never drops the question about intent, and never leaves more than the
/// ceiling. What is kept was in the reply.
pub proof fn trimming_keeps_intent(qs: Seq<Generated>, max: nat)
    ensures
        fitted(qs, max).len() <= max,
        qs.len() <= max ==> fitted(qs, max) == qs,
        max > 0 && (exists|i: int| 0 <= i < qs.len() && (#[trigger] qs[i]).kind@ == "intent"@)
            ==> exists|i: int|
            0 <= i < fitted(qs, max).len() && (#[trigger] fitted(qs, max)[i]).kind@ == "intent"@,
        forall|i: int| 0 <= i < fitted(qs, max).len() ==> qs.contains(#[trigger] fitted(qs, max)[i]),
{
    intent_position_meaning(qs);
    let p = intent_position(qs);
    let f = fitted(qs, max);
    if max > 0 && exists|i: int| 0 <= i < qs.len() && (#[trigger] qs[i]).kind@ == "intent"@ {
        let i = choose|i: int| 0 <= i < qs.len() && (#[trigger] qs[i]).kind@ == "intent"@;
        if p >= qs.len() {
            assert(qs[i].kind@ != "intent"@);
        }
        if qs.len() > max {
            assert(f[0].kind@ == "intent"@);
        } else {
            assert(f[i].kind@ == "intent"@);
        }
    }
    assert forall|i: int| 0 <= i < f.len() implies qs.contains(#[trigger] f[i]) by {
        if qs.len() > max && p < qs.len() {
            if i == p {
                assert(f[i] == qs[0]);
            } else if i == 0 {
                assert(f[i] == qs[p]);
            } else {
                assert(f[i] == qs[i]);
            }
        } else {
            assert(f[i] == qs[i]);
        }
    }
}

// ---------------------------------------------------------------- the prompt

/// Hunks as the generator sees them.
pub open spec fn rendered(hunks: Seq<HunkModel>) -> Seq<char>
    decreases hunks.len(),
{
    if hunks.len() == 0 {
        Seq::empty()
    } else {
        rendered(hunks.drop_last()) + "--- "@ + hunks.last().file + " (anchor: "@
            + hunks.last().anchor + ")\n"@ + hunks.last().body + "\n\n"@
    }
}

/// The hunks of a context as the generator sees them.
pub fn render_hunks(ctx: &Context) -> (r: String)
    ensures
        r@ == rendered(hunk_models(ctx.hunks@)),
{
    let ghost hs = hunk_models(ctx.hunks@);
    let mut s = String::new();
    let mut i: usize = 0;
    proof {
        assert(hs.take(0) =~= Seq::empty());
    }
    while i < ctx.hunks.len()
        invariant
            i <= ctx.hunks@.len(),
            hs == hunk_models(ctx.hunks@),
            s@ == rendered(hs.take(i as int)),
        decreases ctx.hunks@.len() - i,
    {
        let h = &ctx.hunks[i];
        proof {
            assert(hs.take(i + 1).drop_last() =~= hs.take(i as int));
            assert(hs.take(i + 1).last() == h@);
        }
        s.append("--- ");
        s.append(h.file.as_str());
        s.append(" (anchor: ");
        s.append(h.anchor.as_str());
        s.append(")\n");
        s.append(h.body.as_str());
        s.append("\n\n");
        i += 1;
    }
    proof {
        assert(hs.take(i as int) =~= hs);
    }
    s
}

/// Lines behind a dash each.
pub open spec fn dashed(ls: Seq<Seq<char>>) -> Seq<char>
    decreases ls.len(),
{
    if ls.len() == 0 {
        Seq::empty()
    } else {
        dashed(ls.drop_last()) + "- "@ + ls.last() + "\n"@
    }
}

fn dash_lines(ls: &[String]) -> (r: String)
    ensures
        r@ == dashed(texts(ls@)),
{
    let ghost all = texts(ls@);
    let mut s = String::new();
    let mut i: usize = 0;
    proof {
        assert(all.take(0) =~= Seq::empty());
    }
    while i < ls.len()
        invariant
            i <= ls@.len(),
            all == texts(ls@),
            s@ == dashed(all.take(i as int)),
        decreases ls@.len() - i,
    {
        proof {
            assert(all.take(i + 1).drop_last() =~= all.take(i as int));
        }
        s.append("- ");
        s.append(ls[i].as_str());
        s.append("\n");
        i += 1;
    }
    proof {
        assert(all.take(i as int) =~= all);
    }
    s
}

/// What is said of the test command.
pub open spec fn test_section(command: Option<Seq<char>>) -> Seq<char> {
    match command {
        Some(cmd) => "# Test command\n\nThe project is tested with `"@ + cmd
            + "`. A checkable question may ask the respondent to run it.\n\n"@,
        None => "# Test command\n\nNone found. Do not use the checkable kind.\n\n"@,
    }
}

/// What is said of the call sites.
pub open spec fn call_site_section(sites: Seq<Seq<char>>) -> Seq<char> {
    if sites.len() == 0 {
        "# Call sites\n\nNone found. Do not use the cross_cutting kind.\n\n"@
    } else {
        "# Call sites\n\n"@ + joined(sites, "\n"@) + "\n\n"@
    }
}

/// What is said of the guards.
pub open spec fn shadowed_section(shadowed: Seq<Seq<char>>) -> Seq<char> {
    if shadowed.len() == 0 {
        "# What this change now runs before\n\nNone found. Do not use the shadowed kind.\n"@
    } else {
        "# What this change now runs before\n\nEach block is a guard this change added, followed by dispatch that was already there and now sits behind it.\n\n"@
            + joined(shadowed, "\n"@) + "\n"@
    }
}

/// The text of an optional string.
pub open spec fn optional_text(s: Option<String>) -> Option<Seq<char>> {
    match s {
        Some(s) => Some(s@),
        None => None,
    }
}

/// Everything that the generator is told of a change.
pub open spec fn user_text(ctx: Context) -> Seq<char> {
    "# AI-authored hunks\n\n"@ + rendered(hunk_models(ctx.hunks@))
        + "# What this change says it is for\n\n"@ + ctx.pr_title@ + "\n"@ + dashed(
        texts(ctx.commit_subjects@),
    ) + "\n"@ + "# Every file this change touches\n\n"@ + joined(texts(ctx.all_files@), "\n"@)
        + "\n\n"@ + test_section(optional_text(ctx.test_command)) + call_site_section(
        texts(ctx.call_sites@),
    ) + shadowed_section(texts(ctx.shadowed@))
}

fn write_test_section(command: &Option<String>) -> (r: String)
    ensures
        r@ == test_section(optional_text(*command)),
{
    match command {
        Some(cmd) => "# Test command\n\nThe project is tested with `".to_owned().concat(
            cmd.as_str(),
        ).concat("`. A checkable question may ask the respondent to run it.\n\n"),
        None => "# Test command\n\nNone found. Do not use the checkable kind.\n\n".to_owned(),
    }
}

fn write_call_site_section(sites: &[String]) -> (r: String)
    ensures
        r@ == call_site_section(texts(sites@)),
{
    if sites.len() == 0 {
        "# Call sites\n\nNone found. Do not use the cross_cutting kind.\n\n".to_owned()
    } else {
        "# Call sites\n\n".to_owned().concat(join(sites, "\n").as_str()).concat("\n\n")
    }
}

fn write_shadowed_section(shadowed: &[String]) -> (r: String)
    ensures
        r@ == shadowed_section(texts(shadowed@)),
{
    if shadowed.len() == 0 {
        "# What this change now runs before\n\nNone found. Do not use the shadowed kind.\n".to_owned()
    } else {
        "# What this change now runs before\n\nEach block is a guard this change added, followed by dispatch that was already there and now sits behind it.\n\n".to_owned().concat(
            join(shadowed, "\n").as_str(),
        ).concat("\n")
    }
}

/// Everything that the generator is told of a change.
pub fn user_prompt(ctx: &Context) -> (r: String)
    ensures
        r@ == user_text(*ctx),
{
    "# AI-authored hunks\n\n".to_owned().concat(render_hunks(ctx).as_str()).concat(
        "# What this change says it is for\n\n",
    ).concat(ctx.pr_title.as_str()).concat("\n").concat(
        dash_lines(&ctx.commit_subjects).as_str(),
    ).concat("\n").concat("# Every file this change touches\n\n").concat(
        join(&ctx.all_files, "\n").as_str(),
    ).concat("\n\n").concat(write_test_section(&ctx.test_command).as_str()).concat(
        write_call_site_section(&ctx.call_sites).as_str(),
    ).concat(write_shadowed_section(&ctx.shadowed).as_str())
}

// ---------------------------------------------------------------- the reply

/// Whether one of the hunks has this anchor.
pub open spec fn anchors_a_hunk(hunks: Seq<Hunk>, anchor: Seq<char>) -> bool {
    exists|i: int| 0 <= i < hunks.len() && (#[trigger] hunks[i]).anchor@ == anchor
}

/// A question that stands on a hunk: its own where its anchor is known, the first one
/// otherwise. A made-up anchor would silently break coverage accounting.
pub open spec fn anchored(q: Generated, hunks: Seq<Hunk>) -> Generated {
    if anchors_a_hunk(hunks, q.anchor@) {
        q
    } else {
        Generated { file: hunks[0].file, anchor: hunks[0].anchor, ..q }
    }
}

/// Why the generator declined.
pub open spec fn decline_reason(reason: Seq<char>) -> Seq<char> {
    if reason.len() == 0 {
        "nothing worth asking"@
    } else {
        reason
    }
}

fn known_anchor(hunks: &[Hunk], anchor: &str) -> (r: bool)
    ensures
        r == anchors_a_hunk(hunks@, anchor@),
{
    let mut i: usize = 0;
    while i < hunks.len()
        invariant
            i <= hunks@.len(),
            forall|j: int| 0 <= j < i ==> (#[trigger] hunks@[j]).anchor@ != anchor@,
        decreases hunks@.len() - i,
    {
        if same(hunks[i].anchor.as_str(), anchor) {
            return true;
        }
        i += 1;
    }
    false
}

fn anchor_question(q: Generated, hunks: &[Hunk]) -> (r: Generated)
    requires
        hunks@.len() > 0,
    ensures
        r == anchored(q, hunks@),
{
    if known_anchor(hunks, q.anchor.as_str()) {
        q
    } else {
        Generated {
            kind: q.kind,
            file: hunks[0].file.clone(),
            anchor: hunks[0].anchor.clone(),
            text: q.text,
            reference: q.reference,
            hints: q.hints,
        }
    }
}

fn anchor_all(questions: Vec<Generated>, hunks: &[Hunk]) -> (r: Vec<Generated>)
    requires
        hunks@.len() > 0,
    ensures
        r@ == questions@.map_values(|q: Generated| anchored(q, hunks@)),
{
    let mut rest = questions;
    let mut out: Vec<Generated> = Vec::new();
    while rest.len() > 0
        invariant
            hunks@.len() > 0,
            out@.len() + rest@.len() == questions@.len(),
            rest@ == questions@.skip(out@.len() as int),
            forall|j: int| 0 <= j < out@.len() ==> out@[j] == anchored(questions@[j], hunks@),
        decreases rest@.len(),
    {
        let ghost done = out@.len();
        let q = rest.remove(0);
        assert(q == questions@[done as int]);
        out.push(anchor_question(q, hunks));
        assert(rest@ =~= questions@.skip(out@.len() as int));
    }
    assert(out@ =~= questions@.map_values(|q: Generated| anchored(q, hunks@)));
    out
}

impl CliGenerator {
    /// The two halves of the prompt: the rules for the band, and the change.
    pub fn prompts(&self, ctx: &Context) -> (r: (String, String))
        ensures
            r.0@ == system_text(ctx.questions.0 as nat, ctx.questions.1 as nat),
            r.1@ == user_text(*ctx),
    {
        (system_prompt(ctx.questions.0, ctx.questions.1), user_prompt(ctx))
    }

    /// What the reply to these prompts amounts to. A reply that skips, or holds no
    /// question, declines; any other is held to the ceiling, and each of its questions
    /// stands on a hunk. The second part is what to tell the author of it.
    pub fn generate(&self, ctx: &Context, reply: Reply) -> (r: (Generation, Option<String>))
        requires
            reply.skip || reply.questions@.len() == 0 || ctx.hunks@.len() > 0,
        ensures
            match r.0 {
                Generation::Declined(reason) => {
                    &&& reply.skip || reply.questions@.len() == 0
                    &&& reason@ == decline_reason(reply.reason@)
                    &&& optional_text(r.1) == Some("  generator declined: "@ + reason@)
                },
                Generation::Questions(qs) => {
                    &&& !reply.skip && reply.questions@.len() > 0
                    &&& qs@ == fitted(reply.questions@, ctx.questions.1 as nat).map_values(
                        |q: Generated| anchored(q, ctx.hunks@),
                    )
                    &&& optional_text(r.1) == fit_remark(
                        reply.questions@.len(),
                        ctx.questions.0 as nat,
                        ctx.questions.1 as nat,
                    )
                },
            },
    {
        if reply.skip || reply.questions.len() == 0 {
            let reason = if reply.reason.as_str().is_empty() {
                "nothing worth asking".to_owned()
            } else {
                reply.reason
            };
            let remark = "  generator declined: ".to_owned().concat(reason.as_str());
            return (Generation::Declined(reason), Some(remark));
        }
        let (kept, remark) = fit(reply.questions, ctx.questions.0, ctx.questions.1);
        (Generation::Questions(anchor_all(kept, ctx.hunks)), remark)
    }
}

/// Every question of a quiz stands on a hunk that the generator was shown.
pub proof fn every_question_stands_on_a_hunk(q: Generated, hunks: Seq<Hunk>)
    requires
        hunks.len() > 0,
    ensures
        anchors_a_hunk(hunks, anchored(q, hunks).anchor@),
        anchored(q, hunks).kind == q.kind,
        anchored(q, hunks).text == q.text,
        anchored(q, hunks).reference == q.reference,
        anchored(q, hunks).hints == q.hints,
{
    assert(hunks[0].anchor@ == hunks[0].anchor@);
}

} // verus!
