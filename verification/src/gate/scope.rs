//! From a diff to the hunks that are quizzed, and to the decision whether any is.

use vstd::prelude::*;
use vstd::string::StringExecFns;
use crate::authorship::{assisted, commits_of, mode_of, resolve, some_patch_adds, Mode, Scope};
use crate::git::{hunk_models, hunk_models_push, hunks_of, parse_diff, Hunk, HunkModel};
use crate::text::number::{decimal, show, show_usize};
use crate::text::laws::{choosing_twice, same_choice};
use crate::text::split::{byte_len, texts, utf8_length};
use crate::triage::{
    assess, is_left_out, left_out, most_questions, question_band, skip_reason, Verdict, FLOOR,
};
use crate::text::chars::{same, substring, to_chars};

verus! {

/// The hunks whose files are written by hand, where the repository marks the files `marked`
/// as generated.
pub open spec fn handwritten(hunks: Seq<HunkModel>, marked: Seq<Seq<char>>) -> Seq<HunkModel>
    decreases hunks.len(),
{
    if hunks.len() == 0 {
        Seq::empty()
    } else if left_out(hunks.last().file, marked) {
        handwritten(hunks.drop_last(), marked)
    } else {
        handwritten(hunks.drop_last(), marked).push(hunks.last())
    }
}

/// The hunks that are in scope.
pub open spec fn scoped(hunks: Seq<HunkModel>, scope: Scope) -> Seq<HunkModel>
    decreases hunks.len(),
{
    if hunks.len() == 0 {
        Seq::empty()
    } else if scope.in_scope(hunks.last()) {
        scoped(hunks.drop_last(), scope).push(hunks.last())
    } else {
        scoped(hunks.drop_last(), scope)
    }
}

/// A diff, read.
pub struct Scoped {
    /// The hunks of files that are written by hand.
    pub all_hunks: Vec<Hunk>,
    /// Those of them that are the assistant's.
    pub ai_hunks: Vec<Hunk>,
    /// How many hunks of generated files were left out.
    pub generated: usize,
    pub scope: Scope,
}

impl Scoped {
    /// What reading a diff, with the log and the patches of its branch, gives.
    pub open spec fn reads(
        self,
        diff: Seq<char>,
        log: Seq<char>,
        patches: Seq<Seq<char>>,
        marked: Seq<Seq<char>>,
        assistant: Seq<char>,
    ) -> bool {
        &&& hunk_models(self.all_hunks@) == handwritten(hunks_of(diff), marked)
        &&& hunk_models(self.ai_hunks@) == scoped(handwritten(hunks_of(diff), marked), self.scope)
        &&& self.generated + self.all_hunks@.len() == hunks_of(diff).len()
        &&& self.scope.wf()
        &&& self.scope.mode == mode_of(log, assistant)
        &&& self.scope.total_commits == commits_of(log).len()
        &&& texts(self.scope.ai_commits@) == assisted(commits_of(log), assistant)
        &&& forall|p: (Seq<char>, Seq<char>)|
            #[trigger] self.scope.lines().contains(p) <==> self.scope.mode == Mode::Trailers
                && some_patch_adds(patches, p)
    }
}

/// Reads a diff: generated files are left out, those that the repository marks as such among
/// them, and what is left is narrowed to what the assistant, who goes by `assistant`, wrote.
pub fn read_diff(
    diff: &str,
    log: &str,
    patches: &[String],
    marked: &[String],
    assistant: &str,
) -> (r: Scoped)
    ensures
        r.reads(diff@, log@, texts(patches@), texts(marked@), assistant@),
{
    broadcast use hunk_models_push;

    let parsed = parse_diff(diff);
    let scope = resolve(log, patches, assistant);
    let ghost hs = hunk_models(parsed@);
    let mut all_hunks: Vec<Hunk> = Vec::new();
    let mut ai_hunks: Vec<Hunk> = Vec::new();
    let mut left_out: usize = 0;
    let mut i: usize = 0;
    proof {
        assert(hs.take(0) =~= Seq::empty());
        assert(hunk_models(all_hunks@) =~= Seq::empty());
        assert(hunk_models(ai_hunks@) =~= Seq::empty());
        assert(hs.len() == parsed@.len());
    }
    while i < parsed.len()
        invariant
            i <= parsed@.len(),
            hs == hunk_models(parsed@),
            left_out + all_hunks@.len() == i,
            hunk_models(all_hunks@) == handwritten(hs.take(i as int), texts(marked@)),
            hunk_models(ai_hunks@) == scoped(handwritten(hs.take(i as int), texts(marked@)), scope),
        decreases parsed@.len() - i,
    {
        let h = &parsed[i];
        proof {
            assert(hs.take(i + 1).drop_last() =~= hs.take(i as int));
            assert(hs.take(i + 1).last() == h@);
        }
        if is_left_out(h.file.as_str(), marked) {
            left_out += 1;
        } else {
            proof {
                let kept = handwritten(hs.take(i as int), texts(marked@));
                assert(kept.push(h@).drop_last() =~= kept);
            }
            if scope.contains(h) {
                ai_hunks.push(h.clone());
            }
            all_hunks.push(h.clone());
        }
        i += 1;
    }
    proof {
        assert(hs.take(i as int) =~= hs);
    }
    Scoped { all_hunks, ai_hunks, generated: left_out, scope }
}

/// Nothing of a generated file is quizzed, and every hunk that is quizzed is one of the
/// diff and in scope.
pub proof fn what_is_quizzed_is_in_scope(
    diff: Seq<char>,
    marked: Seq<Seq<char>>,
    scope: Scope,
    i: int,
)
    requires
        0 <= i < scoped(handwritten(hunks_of(diff), marked), scope).len(),
    ensures
        hunks_of(diff).contains(scoped(handwritten(hunks_of(diff), marked), scope)[i]),
        !left_out(scoped(handwritten(hunks_of(diff), marked), scope)[i].file, marked),
        scope.in_scope(scoped(handwritten(hunks_of(diff), marked), scope)[i]),
{
    let kept = handwritten(hunks_of(diff), marked);
    scoped_meaning(kept, scope, i);
    let h = scoped(kept, scope)[i];
    let j = choose|j: int| 0 <= j < kept.len() && kept[j] == h;
    handwritten_meaning(hunks_of(diff), marked, j);
}

/// What is quizzed is every hunk of the diff that someone wrote and that is in scope, in the
/// order of the diff.
pub proof fn everything_in_scope_is_quizzed(diff: Seq<char>, marked: Seq<Seq<char>>, scope: Scope)
    ensures
        handwritten(hunks_of(diff), marked) == hunks_of(diff).filter(
            |h: HunkModel| !left_out(h.file, marked),
        ),
        scoped(handwritten(hunks_of(diff), marked), scope) == hunks_of(diff).filter(
            |h: HunkModel| !left_out(h.file, marked) && scope.in_scope(h),
        ),
{
    let hs = hunks_of(diff);
    let p = |h: HunkModel| !left_out(h.file, marked);
    let q = |h: HunkModel| scope.in_scope(h);
    handwritten_is_chosen(hs, marked);
    scoped_is_chosen(hs.filter(p), scope);
    choosing_twice(hs, p, q);
    same_choice(
        hs,
        |h: HunkModel| p(h) && q(h),
        |h: HunkModel| !left_out(h.file, marked) && scope.in_scope(h),
    );
}

proof fn handwritten_is_chosen(hunks: Seq<HunkModel>, marked: Seq<Seq<char>>)
    ensures
        handwritten(hunks, marked) == hunks.filter(|h: HunkModel| !left_out(h.file, marked)),
    decreases hunks.len(),
{
    reveal(Seq::filter);
    if hunks.len() > 0 {
        handwritten_is_chosen(hunks.drop_last(), marked);
    }
    assert(handwritten(hunks, marked) =~= hunks.filter(
        |h: HunkModel| !left_out(h.file, marked),
    ));
}

proof fn scoped_is_chosen(hunks: Seq<HunkModel>, scope: Scope)
    ensures
        scoped(hunks, scope) == hunks.filter(|h: HunkModel| scope.in_scope(h)),
    decreases hunks.len(),
{
    reveal(Seq::filter);
    if hunks.len() > 0 {
        scoped_is_chosen(hunks.drop_last(), scope);
    }
    assert(scoped(hunks, scope) =~= hunks.filter(|h: HunkModel| scope.in_scope(h)));
}

proof fn scoped_meaning(hunks: Seq<HunkModel>, scope: Scope, i: int)
    requires
        0 <= i < scoped(hunks, scope).len(),
    ensures
        hunks.contains(scoped(hunks, scope)[i]),
        scope.in_scope(scoped(hunks, scope)[i]),
    decreases hunks.len(),
{
    let rest = scoped(hunks.drop_last(), scope);
    if i < rest.len() {
        scoped_meaning(hunks.drop_last(), scope, i);
        let h = rest[i];
        assert(scoped(hunks, scope)[i] == h);
        let k = choose|k: int| 0 <= k < hunks.drop_last().len() && hunks.drop_last()[k] == h;
        assert(hunks[k] == h);
    } else {
        assert(scoped(hunks, scope)[i] == hunks[hunks.len() - 1]);
    }
}

proof fn handwritten_meaning(hunks: Seq<HunkModel>, marked: Seq<Seq<char>>, i: int)
    requires
        0 <= i < handwritten(hunks, marked).len(),
    ensures
        hunks.contains(handwritten(hunks, marked)[i]),
        !left_out(handwritten(hunks, marked)[i].file, marked),
    decreases hunks.len(),
{
    let rest = handwritten(hunks.drop_last(), marked);
    if i < rest.len() {
        handwritten_meaning(hunks.drop_last(), marked, i);
        let h = rest[i];
        assert(handwritten(hunks, marked)[i] == h);
        let k = choose|k: int| 0 <= k < hunks.drop_last().len() && hunks.drop_last()[k] == h;
        assert(hunks[k] == h);
    } else {
        assert(handwritten(hunks, marked)[i] == hunks[hunks.len() - 1]);
    }
}

// ---------------------------------------------------------------- the plan

/// What is known of a change.
pub struct Facts {
    /// The name that the assistant goes by.
    pub assistant: String,
    pub repo: String,
    /// The work tree.
    pub path: String,
    pub pr_number: u64,
    pub branch: String,
    pub base_ref: String,
    pub base_sha: String,
    pub head_sha: String,
    pub diff: String,
    /// Every file that the change touches.
    pub files: Vec<String>,
    /// Those that the repository marks as generated.
    pub marked: Vec<String>,
    /// Whether nothing is left of the change once white space is ignored.
    pub whitespace_only: bool,
    /// Whether the change consists of renames alone.
    pub pure_renames: bool,
}

/// What to do about a change.
#[derive(Debug)]
pub enum Plan {
    /// There is nothing at all; this says so.
    NoHunks(String),
    /// There is nothing worth asking: what to say of it, and why, in short.
    Trivial { message: String, reason: String },
    /// So many questions, at least and at most.
    Quiz { min: usize, max: usize },
}

/// What to do about a change, as texts and numbers.
pub enum PlanModel {
    NoHunks(Seq<char>),
    Trivial { message: Seq<char>, reason: Seq<char> },
    Quiz { min: int, max: int },
}

/// Whether a plan is what the model says.
pub open spec fn is_plan(p: Plan, m: PlanModel) -> bool {
    match (p, m) {
        (Plan::NoHunks(s), PlanModel::NoHunks(t)) => s@ == t,
        (Plan::Trivial { message, reason }, PlanModel::Trivial { message: a, reason: b }) => message@
            == a && reason@ == b,
        (Plan::Quiz { min, max }, PlanModel::Quiz { min: a, max: b }) => min == a && max == b,
        _ => false,
    }
}

/// What to do about a change, before a single token is spent.
pub open spec fn planned(f: Facts, s: Scoped) -> PlanModel {
    let ai = hunk_models(s.ai_hunks@);
    if s.generated + s.all_hunks@.len() == 0 {
        PlanModel::NoHunks("no hunks between "@ + f.base_ref@ + " and HEAD — nothing to quiz"@)
    } else if ai.len() == 0 && s.scope.mode == Mode::Trailers {
        PlanModel::Trivial {
            message: "No AI-authored hunks in this PR ("@ + decimal(s.scope.total_commits as nat)
                + " commits, none from "@ + f.assistant@ + " touched the diff)."@,
            reason: "no AI-authored code"@,
        }
    } else {
        match skip_reason(texts(f.files@), texts(f.marked@), f.whitespace_only, f.pure_renames, ai) {
            Some(reason) => PlanModel::Trivial {
                message: "Nothing worth quizzing: "@ + reason + "."@,
                reason,
            },
            None => PlanModel::Quiz { min: FLOOR as int, max: most_questions(ai) },
        }
    }
}

/// What to do about a change, before a single token is spent.
pub fn plan(f: &Facts, s: &Scoped) -> (r: Plan)
    ensures
        is_plan(r, planned(*f, *s)),
{
    assert(hunk_models(s.ai_hunks@).len() == s.ai_hunks@.len());
    if s.generated == 0 && s.all_hunks.len() == 0 {
        return Plan::NoHunks(
            "no hunks between ".to_owned().concat(f.base_ref.as_str()).concat(
                " and HEAD — nothing to quiz",
            ),
        );
    }
    if s.ai_hunks.len() == 0 && s.scope.mode == Mode::Trailers {
        return Plan::Trivial {
            message: "No AI-authored hunks in this PR (".to_owned().concat(
                show_usize(s.scope.total_commits).as_str(),
            ).concat(" commits, none from ").concat(f.assistant.as_str()).concat(
                " touched the diff).",
            ),
            reason: "no AI-authored code".to_owned(),
        };
    }
    match assess(&f.files, &f.marked, f.whitespace_only, f.pure_renames, &s.ai_hunks) {
        Verdict::Skip(reason) => Plan::Trivial {
            message: "Nothing worth quizzing: ".to_owned().concat(reason.as_str()).concat("."),
            reason,
        },
        Verdict::Quiz => {
            let (min, max) = question_band(&s.ai_hunks);
            Plan::Quiz { min, max }
        },
    }
}

/// What is printed of a change before anything is asked.
pub open spec fn headline_text(f: Facts, s: Scoped) -> Seq<char> {
    let line = f.repo@ + "#"@ + decimal(f.pr_number as nat) + " · "@ + f.branch@ + " · base "@
        + f.base_ref@ + " · "@ + decimal(s.all_hunks@.len()) + " hunks, "@ + decimal(
        s.ai_hunks@.len(),
    ) + " AI ("@ + s.scope.mode.name() + ")"@;
    if s.generated > 0 {
        line + " · "@ + decimal(s.generated as nat) + " generated hunks excluded"@
    } else {
        line
    }
}

/// What is printed of a change before anything is asked.
pub fn headline(f: &Facts, s: &Scoped) -> (r: String)
    ensures
        r@ == headline_text(*f, *s),
{
    let line = f.repo.clone().concat("#").concat(show(f.pr_number).as_str()).concat(" · ").concat(
        f.branch.as_str(),
    ).concat(" · base ").concat(f.base_ref.as_str()).concat(" · ").concat(
        show_usize(s.all_hunks.len()).as_str(),
    ).concat(" hunks, ").concat(show_usize(s.ai_hunks.len()).as_str()).concat(" AI (").concat(
        s.scope.mode.as_str(),
    ).concat(")");
    if s.generated > 0 {
        line.concat(" · ").concat(show_usize(s.generated).as_str()).concat(
            " generated hunks excluded",
        )
    } else {
        line
    }
}

/// What is said where every changed file is generated.
pub fn only_generated(s: &Scoped) -> (r: Option<String>)
    ensures
        match r {
            Some(note) => s.all_hunks@.len() == 0 && note@
                == "Only generated or vendored files changed."@,
            None => s.all_hunks@.len() > 0,
        },
{
    if s.all_hunks.len() == 0 {
        Some("Only generated or vendored files changed.".to_owned())
    } else {
        None
    }
}

// ---------------------------------------------------------------- hashes

/// The longest front of `s` that takes at most `n` bytes.
pub open spec fn front_bytes(s: Seq<char>, n: nat) -> Seq<char>
    decreases s.len(),
{
    if utf8_length(s) <= n {
        s
    } else if s.len() == 0 {
        s
    } else {
        front_bytes(s.drop_last(), n)
    }
}

/// The front of a commit hash that is enough to tell it by: seven bytes.
pub fn short_hash(s: &str) -> (r: String)
    ensures
        r@ == front_bytes(s@, 7),
{
    let cs = to_chars(s);
    let mut n: usize = cs.len();
    let mut front = s.to_owned();
    proof {
        assert(cs@.take(n as int) =~= s@);
    }
    while n > 0 && byte_len(front.as_str()) > 7
        invariant
            n <= cs@.len(),
            cs@ == s@,
            front@ == s@.take(n as int),
            front_bytes(s@, 7) == front_bytes(s@.take(n as int), 7),
        decreases n,
    {
        proof {
            assert(s@.take(n as int).drop_last() =~= s@.take(n - 1));
        }
        n -= 1;
        front = substring(&cs, 0, n);
        assert(front@ =~= s@.take(n as int));
    }
    front
}

/// What is said where the local head is not that of the pull request.
pub open spec fn head_remark(local: Seq<char>, theirs: Seq<char>) -> Option<Seq<char>> {
    if local != theirs {
        Some(
            "warning: local HEAD "@ + front_bytes(local, 7) + " differs from the PR head "@
                + front_bytes(theirs, 7) + " — push first?"@,
        )
    } else {
        None
    }
}

/// What is said where the local head is not that of the pull request.
pub fn head_warning(local: &str, theirs: &str) -> (r: Option<String>)
    ensures
        crate::llm::generate::optional_text(r) == head_remark(local@, theirs@),
{
    if same(local, theirs) {
        return None;
    }
    Some(
        "warning: local HEAD ".to_owned().concat(short_hash(local).as_str()).concat(
            " differs from the PR head ",
        ).concat(short_hash(theirs).as_str()).concat(" — push first?"),
    )
}

} // verus!
