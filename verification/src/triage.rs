//! Whether a diff deserves a quiz at all. This runs before a single token is
//! spent: a model asked for three questions will always produce three, for a
//! version bump too.

use vstd::prelude::*;
use vstd::string::StringExecFns;
use crate::git::{hunk_models, Hunk, HunkModel};
use crate::text::number::{decimal, show_usize};
use crate::text::search::{contains_any, ends_with_any, has_one_of, has_suffix_of};
use crate::text::split::{listed, note, strs, texts, texts_push};

pub mod laws;

verus! {

/// What triage decides.
pub enum Verdict {
    Quiz,
    /// No quiz, and why.
    Skip(String),
}

/// How the paths of generated files end.
pub open spec fn generated_endings() -> Seq<Seq<char>> {
    seq![
        "Cargo.lock"@,
        "package-lock.json"@,
        "yarn.lock"@,
        "pnpm-lock.yaml"@,
        "Gemfile.lock"@,
        "composer.lock"@,
        "poetry.lock"@,
        "go.sum"@,
        ".min.js"@,
        ".min.css"@,
        ".map"@,
    ]
}

/// The directories that hold generated or vendored files.
pub open spec fn generated_dirs() -> Seq<Seq<char>> {
    seq!["vendor/"@, "node_modules/"@, "dist/"@, "build/"@, "target/"@]
}

/// Whether the file at `path` is generated or vendored.
pub open spec fn generated(path: Seq<char>) -> bool {
    has_suffix_of(path, generated_endings()) || has_one_of(path, generated_dirs())
}

/// Whether the file at `path` is generated or vendored.
///
/// Such files are kept out of the hunks to quiz, not just out of the
/// all-or-nothing skip: a lockfile riding along with real code would otherwise
/// supply hunks to quiz.
pub fn is_generated(path: &str) -> (r: bool)
    ensures
        r == generated(path@),
{
    let endings: [&str; 11] = [
        "Cargo.lock",
        "package-lock.json",
        "yarn.lock",
        "pnpm-lock.yaml",
        "Gemfile.lock",
        "composer.lock",
        "poetry.lock",
        "go.sum",
        ".min.js",
        ".min.css",
        ".map",
    ];
    let dirs: [&str; 5] = ["vendor/", "node_modules/", "dist/", "build/", "target/"];
    proof {
        assert(strs(endings@) =~= generated_endings());
        assert(strs(dirs@) =~= generated_dirs());
    }
    ends_with_any(path, &endings) || contains_any(path, &dirs)
}

/// What marks control flow or a signature.
pub open spec fn semantic_tokens() -> Seq<Seq<char>> {
    seq![
        "if "@,
        "for "@,
        "while "@,
        "match "@,
        "return"@,
        "fn "@,
        "def "@,
        "async"@,
        "class "@,
        "func "@,
        "=>"@,
        "&&"@,
        "||"@,
        "case "@,
        "rescue"@,
        "raise"@,
        "throw"@,
        "catch"@,
    ]
}

/// Whether a line carries control flow or a signature.
pub open spec fn semantic(line: Seq<char>) -> bool {
    has_one_of(line, semantic_tokens())
}

/// Whether an added line carries control flow or a signature. Crude but
/// deterministic.
pub fn is_semantic(line: &str) -> (r: bool)
    ensures
        r == semantic(line@),
{
    let tokens: [&str; 18] = [
        "if ",
        "for ",
        "while ",
        "match ",
        "return",
        "fn ",
        "def ",
        "async",
        "class ",
        "func ",
        "=>",
        "&&",
        "||",
        "case ",
        "rescue",
        "raise",
        "throw",
        "catch",
    ];
    proof {
        assert(strs(tokens@) =~= semantic_tokens());
    }
    contains_any(line, &tokens)
}

/// Whether one of the lines carries control flow or a signature.
pub open spec fn some_semantic(ls: Seq<Seq<char>>) -> bool {
    exists|i: int| 0 <= i < ls.len() && semantic(#[trigger] ls[i])
}

fn any_semantic(ls: &[String]) -> (r: bool)
    ensures
        r == some_semantic(texts(ls@)),
{
    let mut i: usize = 0;
    while i < ls.len()
        invariant
            i <= ls@.len(),
            forall|j: int| 0 <= j < i ==> !semantic(#[trigger] texts(ls@)[j]),
        decreases ls@.len() - i,
    {
        if is_semantic(ls[i].as_str()) {
            assert(semantic(texts(ls@)[i as int]));
            return true;
        }
        i += 1;
    }
    false
}

/// The files of the hunks that carry control flow or a signature, one entry for
/// each such hunk.
pub open spec fn semantic_files(hunks: Seq<HunkModel>) -> Seq<Seq<char>>
    decreases hunks.len(),
{
    if hunks.len() == 0 {
        Seq::empty()
    } else if some_semantic(hunks.last().added) {
        semantic_files(hunks.drop_last()).push(hunks.last().file)
    } else {
        semantic_files(hunks.drop_last())
    }
}

/// How many ideas a change holds. A second hunk in the same file is usually the
/// same idea seen twice, so it counts for half of what a second file does.
pub open spec fn areas(hunks: Seq<HunkModel>) -> int {
    let files = semantic_files(hunks);
    let distinct = files.to_set().len();
    distinct + (files.len() - distinct) / 2
}

/// The fewest questions of a quiz.
pub const FLOOR: usize = 3;

/// The most questions of a quiz.
pub const CEILING: usize = 6;

/// The most questions that a change is worth.
pub open spec fn most_questions(hunks: Seq<HunkModel>) -> int {
    let wanted = 2 + areas(hunks) / 2;
    if wanted < FLOOR {
        FLOOR as int
    } else if wanted > CEILING {
        CEILING as int
    } else {
        wanted
    }
}

/// How many questions a change is worth: a floor, and a ceiling, with the
/// generator picking in between.
///
/// Scaled by areas, not lines: a long mechanical rename is one idea, and a short
/// lock-ordering change across four files is four. The floor is three because the
/// pass rule drops the lowest score, and dropping one of two is a coin toss; the
/// ceiling is six because past that the quiz costs more than reviewing the change.
pub fn question_band(hunks: &[Hunk]) -> (r: (usize, usize))
    ensures
        r.0 == FLOOR,
        r.1 == most_questions(hunk_models(hunks@)),
{
    broadcast use texts_push;

    let ghost hs = hunk_models(hunks@);
    let mut files: Vec<String> = Vec::new();
    let mut count: usize = 0;
    let mut i: usize = 0;
    proof {
        assert(hs.take(0) =~= Seq::empty());
        assert(texts(files@).to_set() =~= semantic_files(hs.take(0)).to_set());
    }
    while i < hunks.len()
        invariant
            i <= hunks@.len(),
            hs == hunk_models(hunks@),
            count <= i,
            count == semantic_files(hs.take(i as int)).len(),
            texts(files@).no_duplicates(),
            texts(files@).len() <= count,
            texts(files@).to_set() == semantic_files(hs.take(i as int)).to_set(),
        decreases hunks@.len() - i,
    {
        let ghost before = semantic_files(hs.take(i as int));
        proof {
            assert(hs.take(i + 1).drop_last() =~= hs.take(i as int));
            assert(hs.take(i + 1).last() == hunks@[i as int]@);
        }
        if any_semantic(&hunks[i].added) {
            let fresh = note(&mut files, hunks[i].file.as_str());
            proof {
                before.lemma_push_to_set_commute(hs[i as int].file);
            }
            count += 1;
        }
        i += 1;
    }
    proof {
        assert(hs.take(i as int) =~= hs);
        texts(files@).unique_seq_to_set();
        assert(texts(files@).len() == files@.len());
    }
    let distinct: usize = files.len();
    let total: usize = distinct + (count - distinct) / 2;
    let wanted: usize = 2 + total / 2;
    let max: usize = if wanted < FLOOR {
        FLOOR
    } else if wanted > CEILING {
        CEILING
    } else {
        wanted
    };
    (FLOOR, max)
}

/// Every line that a list of hunks adds, in order.
pub open spec fn all_added(hunks: Seq<HunkModel>) -> Seq<Seq<char>>
    decreases hunks.len(),
{
    if hunks.len() == 0 {
        Seq::empty()
    } else {
        all_added(hunks.drop_last()) + hunks.last().added
    }
}

/// Whether the file at `path` is no one's handiwork: generated or vendored by its name, or
/// among those that the repository marks as generated.
pub open spec fn left_out(path: Seq<char>, marked: Seq<Seq<char>>) -> bool {
    generated(path) || marked.contains(path)
}

/// Whether the file at `path` is no one's handiwork.
pub fn is_left_out(path: &str, marked: &[String]) -> (r: bool)
    ensures
        r == left_out(path@, texts(marked@)),
{
    is_generated(path) || listed(marked, path)
}

/// Why a change gets no quiz, where it gets none.
pub open spec fn skip_reason(
    files: Seq<Seq<char>>,
    marked: Seq<Seq<char>>,
    whitespace_only: bool,
    pure_renames: bool,
    hunks: Seq<HunkModel>,
) -> Option<Seq<char>> {
    let added = all_added(hunks);
    if files.len() == 0 {
        Some("no files changed"@)
    } else if forall|i: int| 0 <= i < files.len() ==> left_out(#[trigger] files[i], marked) {
        Some("only generated or vendored files"@)
    } else if whitespace_only {
        Some("whitespace only"@)
    } else if pure_renames {
        Some("pure renames, no content change"@)
    } else if added.len() < 10 && !some_semantic(added) {
        Some(decimal(added.len()) + " added lines, no control flow or signature change"@)
    } else {
        None
    }
}

/// Whether a change deserves a quiz, from the files it touches, from those that the
/// repository marks as generated, from whether anything is left of it once white space is
/// ignored, from whether it is renames alone, and from its hunks.
///
/// There is no cap on its length. A long diff gets the same questions and a
/// coverage line that reads badly: the number is the feedback.
pub fn assess(
    files: &[String],
    marked: &[String],
    whitespace_only: bool,
    pure_renames: bool,
    hunks: &[Hunk],
) -> (r: Verdict)
    ensures
        ({
            let reason = skip_reason(
                texts(files@),
                texts(marked@),
                whitespace_only,
                pure_renames,
                hunk_models(hunks@),
            );
            match r {
                Verdict::Quiz => reason is None,
                Verdict::Skip(why) => reason == Some(why@),
            }
        }),
{
    broadcast use texts_push;

    if files.len() == 0 {
        return Verdict::Skip("no files changed".to_owned());
    }
    let mut all_generated = true;
    let mut i: usize = 0;
    let ghost fs = texts(files@);
    while i < files.len()
        invariant
            i <= files@.len(),
            fs == texts(files@),
            all_generated == forall|j: int| 0 <= j < i ==> left_out(#[trigger] fs[j], texts(marked@)),
        decreases files@.len() - i,
    {
        assert(fs[i as int] == files@[i as int]@);
        if !is_left_out(files[i].as_str(), marked) {
            all_generated = false;
        }
        i += 1;
    }
    if all_generated {
        return Verdict::Skip("only generated or vendored files".to_owned());
    }
    if whitespace_only {
        return Verdict::Skip("whitespace only".to_owned());
    }
    if pure_renames {
        return Verdict::Skip("pure renames, no content change".to_owned());
    }
    let added = collect_added(hunks);
    proof {
        assert(texts(added@).len() == added@.len());
    }
    if added.len() < 10 && !any_semantic(&added) {
        let why = show_usize(added.len()).concat(
            " added lines, no control flow or signature change",
        );
        return Verdict::Skip(why);
    }
    Verdict::Quiz
}

/// Every line that a list of hunks adds, in order.
pub fn collect_added(hunks: &[Hunk]) -> (r: Vec<String>)
    ensures
        texts(r@) == all_added(hunk_models(hunks@)),
{
    broadcast use texts_push;

    let ghost hs = hunk_models(hunks@);
    let mut added: Vec<String> = Vec::new();
    let mut k: usize = 0;
    proof {
        assert(hs.take(0) =~= Seq::empty());
        assert(texts(added@) =~= all_added(hs.take(0)));
    }
    while k < hunks.len()
        invariant
            k <= hunks@.len(),
            hs == hunk_models(hunks@),
            texts(added@) == all_added(hs.take(k as int)),
        decreases hunks@.len() - k,
    {
        let ghost before = texts(added@);
        let ghost more = hs[k as int].added;
        let mut j: usize = 0;
        proof {
            assert(before + more.take(0) =~= before);
        }
        while j < hunks[k].added.len()
            invariant
                k < hunks@.len(),
                hs == hunk_models(hunks@),
                more == hs[k as int].added,
                j <= hunks@[k as int].added@.len(),
                texts(added@) == before + more.take(j as int),
            decreases hunks@[k as int].added@.len() - j,
        {
            proof {
                let line = hunks@[k as int].added@[j as int]@;
                assert(more[j as int] == line);
                assert((before + more.take(j as int)).push(line) =~= before + more.take(j + 1));
            }
            added.push(hunks[k].added[j].clone());
            j += 1;
        }
        proof {
            assert(more.take(j as int) =~= more);
            assert(hs.take(k + 1).drop_last() =~= hs.take(k as int));
        }
        k += 1;
    }
    proof {
        assert(hs.take(k as int) =~= hs);
    }
    added
}

/// The band is never inverted, and never leaves three to six.
pub proof fn band_within_bounds(hunks: Seq<HunkModel>)
    ensures
        3 <= FLOOR <= most_questions(hunks) <= CEILING <= 6,
{
}

/// Hunks with no control flow or signature in them are noise, not areas: they do
/// not move the band, wherever they stand.
pub proof fn prose_moves_no_band(before: Seq<HunkModel>, noise: HunkModel, after: Seq<HunkModel>)
    requires
        !some_semantic(noise.added),
    ensures
        most_questions(before.push(noise) + after) == most_questions(before + after),
{
    prose_names_no_file(before, noise, after);
}

proof fn prose_names_no_file(before: Seq<HunkModel>, noise: HunkModel, after: Seq<HunkModel>)
    requires
        !some_semantic(noise.added),
    ensures
        semantic_files(before.push(noise) + after) == semantic_files(before + after),
    decreases after.len(),
{
    let a = before.push(noise) + after;
    let b = before + after;
    if after.len() == 0 {
        assert(a.drop_last() =~= b);
        assert(a.last() == noise);
    } else {
        prose_names_no_file(before, noise, after.drop_last());
        assert(a.drop_last() =~= before.push(noise) + after.drop_last());
        assert(b.drop_last() =~= before + after.drop_last());
    }
}

/// How many lines a hunk adds does not count: what counts is its file, and whether
/// one of its lines is semantic.
pub proof fn line_count_buys_no_questions(a: Seq<HunkModel>, b: Seq<HunkModel>)
    requires
        a.len() == b.len(),
        forall|i: int|
            0 <= i < a.len() ==> (#[trigger] a[i]).file == b[i].file && some_semantic(a[i].added)
                == some_semantic(b[i].added),
    ensures
        most_questions(a) == most_questions(b),
{
    same_semantic_files(a, b);
}

proof fn same_semantic_files(a: Seq<HunkModel>, b: Seq<HunkModel>)
    requires
        a.len() == b.len(),
        forall|i: int|
            0 <= i < a.len() ==> (#[trigger] a[i]).file == b[i].file && some_semantic(a[i].added)
                == some_semantic(b[i].added),
    ensures
        semantic_files(a) == semantic_files(b),
    decreases a.len(),
{
    if a.len() > 0 {
        assert(a[a.len() - 1].file == b[a.len() - 1].file);
        same_semantic_files(a.drop_last(), b.drop_last());
    }
}

} // verus!
