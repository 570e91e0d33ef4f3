//! Which hunks of a branch were written by the assistant.
//!
//! Being quizzed on lines you typed yourself is noise, and noise is what
//! teaches you to reach for the override.

use vstd::prelude::*;
use crate::git::{hunk_models, hunks_of, parse_diff, Hunk, HunkModel};
use crate::text::chars::{is_letter_or_number, same, substring, to_chars};
use crate::text::search::{char_position, has_prefix, seek_char, starts_with};
use crate::text::split::{
    collapse, collapsed, collapsed_is_no_longer, lines, lines_of, pieces, split, texts, texts_push, trim, trimmed,
};

pub mod laws;

verus! {

/// How confident we are about what the assistant wrote.
#[derive(Debug, Clone, Copy, PartialEq, Eq, Structural)]
pub enum Mode {
    /// Multiple commits, at least one carrying the trailer.
    Trailers,
    /// A single commit carrying the trailer: a squash merge. Whole diff in scope.
    Squashed,
    /// No trailer anywhere. Whole diff in scope, and the coverage line says so.
    Unknown,
}

impl Mode {
    /// The name under which a mode is recorded.
    pub open spec fn name(self) -> Seq<char> {
        match self {
            Mode::Trailers => "trailers"@,
            Mode::Squashed => "squashed"@,
            Mode::Unknown => "unknown"@,
        }
    }

    pub fn as_str(&self) -> (r: &'static str)
        ensures
            r@ == self.name(),
    {
        match self {
            Mode::Trailers => "trailers",
            Mode::Squashed => "squashed",
            Mode::Unknown => "unknown",
        }
    }
}

/// What of a branch is the assistant's.
pub struct Scope {
    pub mode: Mode,
    /// Normalized `(file, added line)` pairs the assistant introduced, each once.
    ///
    /// Matching whole-hunk anchors does not work here. A commit's hunks and the
    /// cumulative hunks of the branch are different text whenever two commits
    /// touch the same region: the branch diff merges them into one hunk whose
    /// content hash matches neither commit. Lines survive the recombination.
    pub ai_lines: Vec<(String, String)>,
    pub ai_commits: Vec<String>,
    pub total_commits: usize,
}

/// The texts of a list of pairs.
pub open spec fn pair_texts(v: Seq<(String, String)>) -> Seq<(Seq<char>, Seq<char>)> {
    Seq::new(v.len(), |i: int| (v[i].0@, v[i].1@))
}

/// How many letters and numbers `s` holds.
pub open spec fn word_characters(s: Seq<char>) -> nat
    decreases s.len(),
{
    if s.len() == 0 {
        0
    } else if is_letter_or_number(s.last()) {
        word_characters(s.drop_last()) + 1
    } else {
        word_characters(s.drop_last())
    }
}

/// The normal form of a line that identifies its place. A bare `}` or `end`
/// appears in every hunk and would put the whole diff in scope, so a line counts
/// only with six characters and three letters or numbers.
pub open spec fn significant_form(line: Seq<char>) -> Option<Seq<char>> {
    let norm = collapsed(line);
    if norm.len() >= 6 && word_characters(norm) >= 3 {
        Some(norm)
    } else {
        None
    }
}

/// The normal form of a line that identifies its place, where it does.
pub fn significant(line: &str) -> (r: Option<String>)
    ensures
        match r {
            Some(norm) => significant_form(line@) == Some(norm@),
            None => significant_form(line@) is None,
        },
        line@.len() < 6 ==> r is None,
{
    proof {
        collapsed_is_no_longer(line@);
    }
    let norm = collapse(line);
    let cs = to_chars(norm.as_str());
    let mut count: usize = 0;
    let mut i: usize = 0;
    proof {
        assert(cs@.take(0) =~= Seq::empty());
    }
    while i < cs.len()
        invariant
            i <= cs@.len(),
            count <= i,
            count == word_characters(cs@.take(i as int)),
        decreases cs@.len() - i,
    {
        proof {
            assert(cs@.take(i + 1).drop_last() =~= cs@.take(i as int));
        }
        if cs[i].is_alphanumeric() {
            count += 1;
        }
        i += 1;
    }
    proof {
        assert(cs@.take(i as int) =~= norm@);
    }
    if cs.len() >= 6 && count >= 3 {
        Some(norm)
    } else {
        None
    }
}

impl Scope {
    /// The pairs that the assistant introduced, as a set.
    pub open spec fn lines(self) -> Set<(Seq<char>, Seq<char>)> {
        pair_texts(self.ai_lines@).to_set()
    }

    /// No pair is held twice.
    pub open spec fn wf(self) -> bool {
        pair_texts(self.ai_lines@).no_duplicates()
    }

    /// Whether a line added to `file` is the assistant's.
    pub open spec fn holds_line(self, file: Seq<char>, line: Seq<char>) -> bool {
        significant_form(line) is Some && self.lines().contains((file, significant_form(line)->0))
    }

    /// Whether a hunk is in scope: one line of the assistant's is enough.
    pub open spec fn in_scope(self, h: HunkModel) -> bool {
        self.mode == Mode::Trailers ==> exists|i: int|
            0 <= i < h.added.len() && self.holds_line(h.file, #[trigger] h.added[i])
    }

    /// Whether a hunk is in scope. Under `Squashed` and `Unknown` every hunk is.
    pub fn contains(&self, h: &Hunk) -> (r: bool)
        ensures
            r == self.in_scope(h@),
    {
        match self.mode {
            Mode::Trailers => {
                let mut i: usize = 0;
                while i < h.added.len()
                    invariant
                        i <= h.added@.len(),
                        forall|j: int|
                            0 <= j < i ==> !self.holds_line(h@.file, #[trigger] h@.added[j]),
                    decreases h.added@.len() - i,
                {
                    assert(h@.added[i as int] == h.added@[i as int]@);
                    if let Some(norm) = significant(h.added[i].as_str()) {
                        if has_pair(&self.ai_lines, h.file.as_str(), norm.as_str()) {
                            assert(self.holds_line(h@.file, h@.added[i as int]));
                            return true;
                        }
                    }
                    i += 1;
                }
                false
            },
            _ => true,
        }
    }
}

/// Whether a pair is held.
fn has_pair(pairs: &[(String, String)], file: &str, line: &str) -> (r: bool)
    ensures
        r == pair_texts(pairs@).to_set().contains((file@, line@)),
{
    let mut i: usize = 0;
    while i < pairs.len()
        invariant
            i <= pairs@.len(),
            forall|j: int| 0 <= j < i ==> pair_texts(pairs@)[j] != (file@, line@),
        decreases pairs@.len() - i,
    {
        if same(pairs[i].0.as_str(), file) && same(pairs[i].1.as_str(), line) {
            assert(pair_texts(pairs@)[i as int] == (file@, line@));
            return true;
        }
        i += 1;
    }
    false
}

/// The name in front of the address, or in front of whatever follows a comma.
pub open spec fn trailer_name(value: Seq<char>) -> Seq<char> {
    let comma = char_position(value, ',');
    let angle = char_position(value, '<');
    trimmed(value.take(if comma < angle { comma } else { angle }))
}

/// Whether a trailer names the assistant, who goes by `assistant`. One without a name is
/// never named.
pub open spec fn names_assistant(value: Seq<char>, assistant: Seq<char>) -> bool {
    assistant.len() > 0 && has_prefix(trailer_name(value), assistant)
}

/// Whether a trailer names the assistant. The text varies by model, so only the
/// front of the name is compared.
pub fn is_assistant(trailer_value: &str, assistant: &str) -> (r: bool)
    ensures
        r == names_assistant(trailer_value@, assistant@),
{
    let cs = to_chars(trailer_value);
    let comma: usize = seek_char(&cs, ',');
    let angle: usize = seek_char(&cs, '<');
    let end: usize = if comma < angle { comma } else { angle };
    let name = substring(&cs, 0, end);
    proof {
        assert(name@ =~= trailer_value@.take(end as int));
    }
    !assistant.is_empty() && starts_with(trim(name.as_str()).as_str(), assistant)
}

/// A commit as the log lists it.
pub struct Record {
    pub sha: Seq<char>,
    pub trailers: Seq<char>,
}

/// The commits in a log: fields ended by a zero character, two for each commit,
/// and no commit where the first of them is blank.
pub open spec fn records(fields: Seq<Seq<char>>) -> Seq<Record>
    decreases fields.len(),
{
    if fields.len() == 0 {
        Seq::empty()
    } else {
        let sha = trimmed(fields[0]);
        let trailers = if fields.len() > 1 { fields[1] } else { Seq::empty() };
        let rest = records(fields.skip(if fields.len() > 1 { 2 } else { 1 }));
        if sha.len() == 0 {
            rest
        } else {
            seq![Record { sha, trailers }] + rest
        }
    }
}

/// The commits in a log.
pub open spec fn commits_of(log: Seq<char>) -> Seq<Record> {
    records(pieces(log, "\u{0}"@))
}

/// Whether a block of trailers names the assistant.
pub open spec fn some_trailer_names_assistant(trailers: Seq<char>, assistant: Seq<char>) -> bool {
    exists|i: int|
        0 <= i < lines_of(trailers).len() && names_assistant(
            #[trigger] lines_of(trailers)[i],
            assistant,
        )
}

/// Whether a commit carries the trailer.
pub open spec fn is_assisted(r: Record, assistant: Seq<char>) -> bool {
    some_trailer_names_assistant(r.trailers, assistant)
}

/// The commits that carry the trailer.
pub open spec fn assisted(rs: Seq<Record>, assistant: Seq<char>) -> Seq<Seq<char>>
    decreases rs.len(),
{
    if rs.len() == 0 {
        Seq::empty()
    } else if is_assisted(rs[0], assistant) {
        seq![rs[0].sha] + assisted(rs.skip(1), assistant)
    } else {
        assisted(rs.skip(1), assistant)
    }
}

/// How much the trailers of a branch say.
pub open spec fn mode_of(log: Seq<char>, assistant: Seq<char>) -> Mode {
    if assisted(commits_of(log), assistant).len() == 0 {
        Mode::Unknown
    } else if commits_of(log).len() <= 1 {
        Mode::Squashed
    } else {
        Mode::Trailers
    }
}

/// Whether `h` adds the line that `p` stands for.
pub open spec fn hunk_adds(h: HunkModel, p: (Seq<char>, Seq<char>)) -> bool {
    h.file == p.0 && exists|i: int|
        0 <= i < h.added.len() && significant_form(#[trigger] h.added[i]) == Some(p.1)
}

/// Whether some hunk of `hunks` adds the line that `p` stands for.
pub open spec fn some_hunk_adds(hunks: Seq<HunkModel>, p: (Seq<char>, Seq<char>)) -> bool {
    exists|i: int| 0 <= i < hunks.len() && hunk_adds(#[trigger] hunks[i], p)
}

/// Whether some patch of `patches` adds the line that `p` stands for.
pub open spec fn some_patch_adds(patches: Seq<Seq<char>>, p: (Seq<char>, Seq<char>)) -> bool {
    exists|i: int| 0 <= i < patches.len() && some_hunk_adds(hunks_of(#[trigger] patches[i]), p)
}

/// Whether a pair is among `pairs`.
pub open spec fn among(pairs: Seq<(String, String)>, p: (Seq<char>, Seq<char>)) -> bool {
    pair_texts(pairs).to_set().contains(p)
}

proof fn pair_texts_push(pairs: Seq<(String, String)>, x: (String, String))
    ensures
        pair_texts(pairs.push(x)) == pair_texts(pairs).push((x.0@, x.1@)),
        forall|p: (Seq<char>, Seq<char>)|
            #[trigger] among(pairs.push(x), p) <==> among(pairs, p) || p == (x.0@, x.1@),
{
    assert(pair_texts(pairs.push(x)) =~= pair_texts(pairs).push((x.0@, x.1@)));
    assert forall|p: (Seq<char>, Seq<char>)|
        #[trigger] among(pairs.push(x), p) <==> among(pairs, p) || p == (x.0@, x.1@) by {
        let old_list = pair_texts(pairs);
        let new_list = old_list.push((x.0@, x.1@));
        if among(pairs, p) {
            let k = choose|k: int| 0 <= k < old_list.len() && old_list[k] == p;
            assert(new_list[k] == p);
        }
        if p == (x.0@, x.1@) {
            assert(new_list[old_list.len() as int] == p);
        }
        if among(pairs.push(x), p) {
            let k = choose|k: int| 0 <= k < new_list.len() && new_list[k] == p;
            if k < old_list.len() {
                assert(old_list[k] == p);
            }
        }
    }
}

/// Notes the lines that `h` adds.
fn note_hunk(pairs: &mut Vec<(String, String)>, h: &Hunk)
    requires
        pair_texts(old(pairs)@).no_duplicates(),
    ensures
        pair_texts(final(pairs)@).no_duplicates(),
        forall|p: (Seq<char>, Seq<char>)|
            #[trigger] among(final(pairs)@, p) <==> among(old(pairs)@, p) || hunk_adds(h@, p),
{
    let mut i: usize = 0;
    let ghost before = pairs@;
    while i < h.added.len()
        invariant
            i <= h.added@.len(),
            pair_texts(pairs@).no_duplicates(),
            forall|p: (Seq<char>, Seq<char>)|
                #[trigger] among(pairs@, p) <==> among(before, p) || (h@.file == p.0 && exists|j: int|
                    0 <= j < i && significant_form(#[trigger] h@.added[j]) == Some(p.1)),
        decreases h.added@.len() - i,
    {
        assert(h@.added[i as int] == h.added@[i as int]@);
        let ghost current = pairs@;
        if let Some(norm) = significant(h.added[i].as_str()) {
            let ghost p0 = (h@.file, norm@);
            if !has_pair(pairs, h.file.as_str(), norm.as_str()) {
                let pair = (h.file.clone(), norm);
                proof {
                    pair_texts_push(pairs@, pair);
                }
                pairs.push(pair);
            }
            assert(among(pairs@, p0));
            assert(forall|p: (Seq<char>, Seq<char>)| #[trigger] among(pairs@, p) <==> among(current, p) || p == p0);
        }
        i += 1;
    }
}

/// The commits of a branch, as its log tells them.
pub struct Commits {
    pub mode: Mode,
    pub ai_commits: Vec<String>,
    pub total_commits: usize,
}

/// Reads a log: how many commits there are, which of them carry the trailer, and
/// what that says of the branch.
pub fn read_log(log: &str, assistant: &str) -> (r: Commits)
    ensures
        r.mode == mode_of(log@, assistant@),
        texts(r.ai_commits@) == assisted(commits_of(log@), assistant@),
        r.total_commits == commits_of(log@).len(),
{
    broadcast use texts_push;

    let fields = split(log, "\u{0}");
    let ghost fs = texts(fields@);
    let mut ai_commits: Vec<String> = Vec::new();
    let mut total: usize = 0;
    let mut i: usize = 0;
    proof {
        assert(fs.skip(0) =~= fs);
        assert(texts(ai_commits@) + assisted(commits_of(log@), assistant@) =~= assisted(commits_of(log@), assistant@));
    }
    while i < fields.len()
        invariant
            i <= fields@.len(),
            fs == texts(fields@),
            total <= i,
            commits_of(log@).len() == total + records(fs.skip(i as int)).len(),
            assisted(commits_of(log@), assistant@) == texts(ai_commits@) + assisted(records(fs.skip(i as int)), assistant@),
        decreases fields@.len() - i,
    {
        let sha = trim(fields[i].as_str());
        let step: usize = if fields.len() - i > 1 { 2 } else { 1 };
        let ghost here = records(fs.skip(i as int));
        let ghost rest = records(fs.skip(i + step));
        proof {
            assert(fs.skip(i as int).skip(step as int) =~= fs.skip(i + step));
            assert(fs.skip(i as int)[0] == fields@[i as int]@);
        }
        if !sha.as_str().is_empty() {
            total += 1;
            let trailers = if step == 2 { fields[i + 1].clone() } else { String::new() };
            proof {
                assert(here[0] == Record { sha: sha@, trailers: trailers@ });
                assert(here.skip(1) =~= rest);
            }
            if any_names(trailers.as_str(), assistant) {
                proof {
                    let before = texts(ai_commits@);
                    assert(is_assisted(here[0], assistant@));
                    assert(assisted(here, assistant@) == seq![sha@] + assisted(rest, assistant@));
                    assert(before + assisted(here, assistant@) =~= before.push(sha@) + assisted(rest, assistant@));
                }
                ai_commits.push(sha);
            }
        }
        i += step;
    }
    proof {
        assert(texts(ai_commits@) + assisted(records(fs.skip(i as int)), assistant@) =~= texts(ai_commits@));
        assert(texts(ai_commits@).len() == ai_commits@.len());
    }
    let mode = if ai_commits.len() == 0 {
        Mode::Unknown
    } else if total <= 1 {
        Mode::Squashed
    } else {
        Mode::Trailers
    };
    Commits { mode, ai_commits, total_commits: total }
}

/// Whether some line of a trailer block names the assistant.
fn any_names(trailers: &str, assistant: &str) -> (r: bool)
    ensures
        r == some_trailer_names_assistant(trailers@, assistant@),
{
    let all = lines(trailers);
    let ghost ls = texts(all@);
    let mut i: usize = 0;
    while i < all.len()
        invariant
            i <= all@.len(),
            ls == texts(all@),
            ls == lines_of(trailers@),
            forall|j: int| 0 <= j < i ==> !names_assistant(#[trigger] ls[j], assistant@),
        decreases all@.len() - i,
    {
        assert(ls[i as int] == all@[i as int]@);
        if is_assistant(all[i].as_str(), assistant) {
            return true;
        }
        i += 1;
    }
    false
}

/// What of a branch is the assistant's, given the branch's log and, where the
/// log's mode is `Trailers`, the patch of each of its assisted commits.
pub fn resolve(log: &str, patches: &[String], assistant: &str) -> (r: Scope)
    ensures
        r.wf(),
        r.mode == mode_of(log@, assistant@),
        texts(r.ai_commits@) == assisted(commits_of(log@), assistant@),
        r.total_commits == commits_of(log@).len(),
        forall|p: (Seq<char>, Seq<char>)|
            #[trigger] r.lines().contains(p) <==> r.mode == Mode::Trailers && some_patch_adds(
                texts(patches@),
                p,
            ),
{
    let commits = read_log(log, assistant);
    let mut ai_lines: Vec<(String, String)> = Vec::new();
    let ghost ps = texts(patches@);
    assert(forall|p: (Seq<char>, Seq<char>)| !#[trigger] among(ai_lines@, p));
    if commits.mode == Mode::Trailers {
        let mut i: usize = 0;
        while i < patches.len()
            invariant
                i <= patches@.len(),
                ps == texts(patches@),
                pair_texts(ai_lines@).no_duplicates(),
                forall|p: (Seq<char>, Seq<char>)|
                    #[trigger] among(ai_lines@, p) <==> exists|k: int|
                        0 <= k < i && some_hunk_adds(hunks_of(#[trigger] ps[k]), p),
            decreases patches@.len() - i,
        {
            assert(ps[i as int] == patches@[i as int]@);
            let ghost earlier = ai_lines@;
            let hunks = parse_diff(patches[i].as_str());
            let ghost hs = hunk_models(hunks@);
            let mut j: usize = 0;
            while j < hunks.len()
                invariant
                    j <= hunks@.len(),
                    hs == hunk_models(hunks@),
                    pair_texts(ai_lines@).no_duplicates(),
                    forall|p: (Seq<char>, Seq<char>)|
                        #[trigger] among(ai_lines@, p) <==> among(earlier, p) || exists|k: int|
                            0 <= k < j && hunk_adds(#[trigger] hs[k], p),
                decreases hunks@.len() - j,
            {
                assert(hs[j as int] == hunks@[j as int]@);
                note_hunk(&mut ai_lines, &hunks[j]);
                j += 1;
            }
            assert(forall|p: (Seq<char>, Seq<char>)| #[trigger] among(ai_lines@, p) <==> among(earlier, p) || some_hunk_adds(hs, p));
            i += 1;
        }
    }
    let scope = Scope {
        mode: commits.mode,
        ai_lines,
        ai_commits: commits.ai_commits,
        total_commits: commits.total_commits,
    };
    assert(forall|p: (Seq<char>, Seq<char>)| #[trigger] scope.lines().contains(p) <==> among(scope.ai_lines@, p));
    scope
}

/// Where the trailers do not tell commits apart, every hunk is in scope.
pub proof fn whole_diff_in_scope_without_trailers(scope: Scope, h: HunkModel)
    requires
        scope.mode != Mode::Trailers,
    ensures
        scope.in_scope(h),
{
}

/// A hunk of the branch that holds one identifying line of an assisted commit, in
/// the same file, is in scope, whatever the commits around it made of the hunk.
pub proof fn assisted_lines_stay_in_scope(
    scope: Scope,
    patches: Seq<Seq<char>>,
    i: int,
    j: int,
    line: Seq<char>,
    h: HunkModel,
)
    requires
        forall|p: (Seq<char>, Seq<char>)|
            #[trigger] scope.lines().contains(p) <==> scope.mode == Mode::Trailers
                && some_patch_adds(patches, p),
        0 <= i < patches.len(),
        0 <= j < hunks_of(patches[i]).len(),
        hunks_of(patches[i])[j].added.contains(line),
        significant_form(line) is Some,
        h.file == hunks_of(patches[i])[j].file,
        h.added.contains(line),
    ensures
        scope.in_scope(h),
{
    if scope.mode == Mode::Trailers {
        let theirs = hunks_of(patches[i])[j];
        let p = (h.file, significant_form(line)->0);
        let k = choose|k: int| 0 <= k < theirs.added.len() && theirs.added[k] == line;
        assert(significant_form(theirs.added[k]) == Some(p.1));
        assert(hunk_adds(theirs, p));
        assert(some_hunk_adds(hunks_of(patches[i]), p));
        assert(scope.lines().contains(p));
        let m = choose|m: int| 0 <= m < h.added.len() && h.added[m] == line;
        assert(scope.holds_line(h.file, h.added[m]));
    }
}

} // verus!
