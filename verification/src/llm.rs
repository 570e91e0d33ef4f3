//! What a model is asked, and what its replies are worth.

use vstd::prelude::*;
use vstd::string::StringExecFns;
use crate::context::{new_side_start, read_new_start};
use crate::git::{hunk_models, Hunk, HunkModel};
use crate::text::chars::{is_digit, is_letter, lowercase, to_chars};
use crate::text::number::{decimal, show_wide};
use crate::text::search::{
    char_position, contains, has_text, occurs_at, position_from, position_from_meaning, seek,
    stands_at, starts_with, has_prefix,
};
use crate::text::split::{byte_len, lines, lines_of, pieces, split, texts, texts_push, trim, trimmed, utf8_length};
use crate::text::words::{bounded, is_name_char, name_at, name_length};

pub mod cli;
pub mod generate;
pub mod judge;
pub mod laws;
pub mod stub;

verus! {

// ---------------------------------------------------------------- questions

/// A question as the generator wrote it.
#[derive(Debug)]
pub struct Generated {
    pub kind: String,
    pub file: String,
    pub anchor: String,
    pub text: String,
    pub reference: String,
    pub hints: Vec<String>,
}

/// A generated question as its texts.
pub struct GeneratedModel {
    pub kind: Seq<char>,
    pub file: Seq<char>,
    pub anchor: Seq<char>,
    pub text: Seq<char>,
    pub reference: Seq<char>,
    pub hints: Seq<Seq<char>>,
}

impl View for Generated {
    type V = GeneratedModel;

    open spec fn view(&self) -> GeneratedModel {
        GeneratedModel {
            kind: self.kind@,
            file: self.file@,
            anchor: self.anchor@,
            text: self.text@,
            reference: self.reference@,
            hints: texts(self.hints@),
        }
    }
}

/// The texts of a list of generated questions.
pub open spec fn generated_models(qs: Seq<Generated>) -> Seq<GeneratedModel> {
    Seq::new(qs.len(), |i: int| qs[i]@)
}

/// What the generator is shown.
pub struct Context<'a> {
    pub diff: &'a str,
    /// Assisted hunks only: the generator never sees the rest.
    pub hunks: &'a [Hunk],
    /// Call sites for changed symbols.
    pub call_sites: Vec<String>,
    /// Guards that the change added, with the dispatch that they now sit in front of.
    pub shadowed: Vec<String>,
    /// Test invocation, if one was found. `checkable` questions need it.
    pub test_command: Option<String>,
    /// How the program is started, if that was found. `exercise` questions need it.
    pub run_invocation: Option<String>,
    /// Where the changed symbols are reachable from. `exercise` questions need it.
    pub surfaces: Vec<String>,
    /// What the change claims to be for. Without this the generator sees individual
    /// hunks and can ask about individual hunks alone.
    pub pr_title: String,
    pub commit_subjects: Vec<String>,
    /// Every changed path, those outside the assisted hunks too: coherence is a
    /// property of the whole change.
    pub all_files: Vec<String>,
    /// How many questions this diff is worth. The generator picks in between: only it
    /// knows whether one more question would be one more idea or padding.
    pub questions: (usize, usize),
}

/// The texts of a list that are not blank.
pub open spec fn not_blank(s: Seq<Seq<char>>) -> Seq<Seq<char>>
    decreases s.len(),
{
    if s.len() == 0 {
        Seq::empty()
    } else if trimmed(s.last()).len() == 0 {
        not_blank(s.drop_last())
    } else {
        not_blank(s.drop_last()).push(s.last())
    }
}

impl<'a> Context<'a> {
    /// Text a respondent could crib an answer about intent from without reading the
    /// diff: the title and the commit subjects, the blank ones left out. The judge is
    /// shown these so it can refuse a restatement.
    pub fn restatement_sources(&self) -> (r: Vec<String>)
        ensures
            texts(r@) == not_blank(seq![self.pr_title@] + texts(self.commit_subjects@)),
    {
        sources(self.pr_title.as_str(), &self.commit_subjects)
    }
}

/// A title and commit subjects, the blank ones left out.
fn sources(title: &str, subjects: &[String]) -> (r: Vec<String>)
    ensures
        texts(r@) == not_blank(seq![title@] + texts(subjects@)),
{
    broadcast use texts_push;

    let ghost all = seq![title@] + texts(subjects@);
    let mut out: Vec<String> = Vec::new();
    proof {
        assert(all.take(1).drop_last() =~= Seq::empty());
        assert(all.take(1).last() == title@);
        assert(not_blank(Seq::empty()) =~= Seq::empty());
        assert(texts(out@) =~= Seq::empty());
    }
    if !trim(title).as_str().is_empty() {
        out.push(title.to_owned());
    }
    let mut i: usize = 0;
    while i < subjects.len()
        invariant
            i <= subjects@.len(),
            all == seq![title@] + texts(subjects@),
            texts(out@) == not_blank(all.take(i + 1)),
        decreases subjects@.len() - i,
    {
        proof {
            assert(all.take(i + 2).drop_last() =~= all.take(i + 1));
            assert(all.take(i + 2).last() == subjects@[i as int]@);
        }
        if !trim(subjects[i].as_str()).as_str().is_empty() {
            out.push(subjects[i].clone());
        }
        i += 1;
    }
    proof {
        assert(all.take(i + 1) =~= all);
    }
    out
}

/// What the generator makes of a change.
pub enum Generation {
    Questions(Vec<Generated>),
    /// Nothing here is worth asking, and why.
    Declined(String),
}

/// Writes the questions.
pub trait Generator {
    fn generate(&self, ctx: &Context) -> Result<Generation, String>;
}

// ---------------------------------------------------------------- grades

/// What an answer is worth.
#[derive(Debug, Clone, Copy, PartialEq, Eq, Structural)]
pub enum Label {
    Wrong,
    Restates,
    Partial,
    Demonstrates,
}

/// The score of an answer that names a real consequence but misses part of it, in
/// tenths. From here on an answer counts as passed.
pub const PARTIAL: u32 = 6;

/// The score of an answer that paraphrases the code, in tenths.
pub const RESTATES: u32 = 3;

impl Label {
    /// The score of a label, in tenths.
    pub open spec fn points(self) -> u32 {
        match self {
            Label::Wrong => 0,
            Label::Restates => 3,
            Label::Partial => 6,
            Label::Demonstrates => 9,
        }
    }

    /// The score of a label, in tenths.
    pub fn score(&self) -> (r: u32)
        ensures
            r == self.points(),
    {
        match self {
            Label::Wrong => 0,
            Label::Restates => 3,
            Label::Partial => 6,
            Label::Demonstrates => 9,
        }
    }

    /// The name under which a label is recorded.
    pub open spec fn name(self) -> Seq<char> {
        match self {
            Label::Wrong => "wrong"@,
            Label::Restates => "restates"@,
            Label::Partial => "partial"@,
            Label::Demonstrates => "demonstrates"@,
        }
    }

    pub fn as_str(&self) -> (r: &'static str)
        ensures
            r@ == self.name(),
    {
        match self {
            Label::Wrong => "wrong",
            Label::Restates => "restates",
            Label::Partial => "partial",
            Label::Demonstrates => "demonstrates",
        }
    }
}

/// A grade, and what to tell the respondent.
#[derive(Debug)]
pub struct Verdict {
    pub label: Label,
    pub feedback: String,
}

/// The respondent's claim that the question, its reference answer or the code itself is
/// wrong, and what the judge made of it.
#[derive(Debug)]
pub struct Disputed {
    pub upheld: bool,
    /// `premise`, `reference` or `code_bug`. Meaningless unless upheld.
    pub kind: String,
    pub feedback: String,
}

/// Whether a run did what the diff was read to do.
#[derive(Debug)]
pub struct Divergence {
    pub diverged: bool,
    /// The disagreement, where there is one.
    pub what: String,
}

/// Grades answers and rules on disputes.
pub trait Judge {
    fn judge(&mut self, diff: &str, question: &str, answer: &str) -> Result<Verdict, String>;

    /// The reference answer goes to the judge and never to the respondent: a dispute is
    /// judged against the code, but the reference is what the claim is often about,
    /// and revealing it would turn disputing into a way to read the answer.
    fn dispute(&mut self, question: &str, reference: &str, claim: &str) -> Result<Disputed, String>;

    fn divergence(&mut self, question: &str, prediction: &str, observation: &str) -> Result<
        Divergence,
        String,
    >;

    fn model(&self) -> &str;
}

// ---------------------------------------------------------------- citations

/// The last part of a path.
pub open spec fn file_tail(path: Seq<char>) -> Seq<char> {
    pieces(path, "/"@).last()
}

/// The last part of a path.
pub fn tail_of(path: &str) -> (r: String)
    ensures
        r@ == file_tail(path@),
{
    let parts = split(path, "/");
    proof {
        crate::git::pieces_not_empty(path@, "/"@);
        assert(texts(parts@).len() == parts@.len());
        assert(texts(parts@).last() == parts@[parts@.len() - 1]@);
    }
    parts[parts.len() - 1].clone()
}

/// Whether the stretch from `i` to `j` is a whole name in `line`.
pub open spec fn is_whole_name(line: Seq<char>, i: int, j: int) -> bool {
    &&& 0 <= i < j <= line.len()
    &&& forall|k: int| i <= k < j ==> is_name_char(#[trigger] line[k])
    &&& bounded(line, i, j)
}

/// Whether a name is long enough to identify something: four bytes, and a letter.
pub open spec fn identifies(name: Seq<char>) -> bool {
    utf8_length(name) >= 4 && exists|k: int| 0 <= k < name.len() && is_letter(#[trigger] name[k])
}

/// Whether `lower` holds, in lowercase, a name from `line` that identifies something.
pub open spec fn mentions_name_of(lower: Seq<char>, line: Seq<char>) -> bool {
    exists|i: int, j: int|
        #[trigger] is_whole_name(line, i, j) && identifies(line.subrange(i, j)) && has_text(
            lower,
            lowercase(line.subrange(i, j)),
        )
}

/// Whether `lower` holds, in lowercase, the name of the hunk's file or a name that the
/// hunk adds.
pub open spec fn mentions(lower: Seq<char>, h: HunkModel) -> bool {
    has_text(lower, lowercase(file_tail(h.file))) || exists|i: int|
        0 <= i < h.added.len() && mentions_name_of(lower, #[trigger] h.added[i])
}

/// How a line number is cited.
pub open spec fn line_cite(n: int) -> Seq<char> {
    ":"@ + decimal(n as nat)
}

/// Whether `cite` stands in `s` at `i` with no digit behind it: a longer number is another
/// one.
pub open spec fn stands_alone(s: Seq<char>, cite: Seq<char>, i: int) -> bool {
    occurs_at(s, cite, i) && !(i + cite.len() < s.len() && is_digit(s[i + cite.len()]))
}

/// Whether `number` stands in `s` at `i` as a number of its own: no part of a longer number,
/// nor of a name.
pub open spec fn is_own_number(s: Seq<char>, number: Seq<char>, i: int) -> bool {
    occurs_at(s, number, i) && bounded(s, i, (i + number.len()) as int)
}

/// Whether a text cites a line by its number.
pub open spec fn cites_number(s: Seq<char>, n: int) -> bool {
    exists|i: int| #[trigger] is_own_number(s, decimal(n as nat), i)
}

/// How many lines of a hunk's body stand in the file after the change: all but the
/// header and the removals.
pub open spec fn kept_lines(ls: Seq<Seq<char>>) -> nat
    decreases ls.len(),
{
    if ls.len() <= 1 {
        0
    } else if has_prefix(ls.last(), "-"@) {
        kept_lines(ls.drop_last())
    } else {
        kept_lines(ls.drop_last()) + 1
    }
}

/// How many lines of the file, after the change, a hunk spans.
pub open spec fn hunk_span(h: HunkModel) -> int {
    let kept = kept_lines(lines_of(h.body));
    if kept > 0 {
        kept as int
    } else {
        1
    }
}

/// Whether a line of the file, after the change, is one of the hunk's.
pub open spec fn is_line_of(h: HunkModel, n: int) -> bool {
    match new_side_start(h.header, u32::MAX as nat) {
        Some(start) => start <= n < start + hunk_span(h),
        None => false,
    }
}

/// Whether a text holds the number of a line of the hunk.
pub open spec fn refers_to_line(s: Seq<char>, h: HunkModel) -> bool {
    exists|n: int| #[trigger] is_line_of(h, n) && cites_number(s, n)
}

/// Whether an answer cites something of the diff: the file of a hunk, a name that it adds,
/// or one of its lines by number.
pub open spec fn cites(answer: Seq<char>, hunks: Seq<HunkModel>) -> bool {
    exists|i: int|
        0 <= i < hunks.len() && (mentions(lowercase(answer), #[trigger] hunks[i])
            || refers_to_line(answer, hunks[i]))
}

proof fn name_length_bounds(s: Seq<char>)
    ensures
        0 <= name_length(s) <= s.len(),
        forall|k: int| 0 <= k < name_length(s) ==> is_name_char(#[trigger] s[k]),
        name_length(s) < s.len() ==> !is_name_char(s[name_length(s)]),
    decreases s.len(),
{
    if s.len() > 0 && is_name_char(s[0]) {
        name_length_bounds(s.skip(1));
        assert forall|k: int| 0 <= k < name_length(s) implies is_name_char(#[trigger] s[k]) by {
            if k > 0 {
                assert(s.skip(1)[k - 1] == s[k]);
            }
        }
        if name_length(s) < s.len() {
            assert(s.skip(1)[name_length(s) - 1] == s[name_length(s)]);
        }
    }
}

fn has_letter(s: &str) -> (r: bool)
    ensures
        r == exists|k: int| 0 <= k < s@.len() && is_letter(#[trigger] s@[k]),
{
    let cs = to_chars(s);
    let mut i: usize = 0;
    while i < cs.len()
        invariant
            cs@ == s@,
            i <= cs@.len(),
            forall|k: int| 0 <= k < i ==> !is_letter(#[trigger] s@[k]),
        decreases cs@.len() - i,
    {
        if cs[i].is_alphabetic() {
            assert(is_letter(s@[i as int]));
            return true;
        }
        i += 1;
    }
    false
}

fn is_identifying(name: &str) -> (r: bool)
    ensures
        r == identifies(name@),
{
    byte_len(name) >= 4 && has_letter(name)
}

/// Whether `lower` holds a name from `line` that identifies something.
fn names_line(lower: &str, line: &str) -> (r: bool)
    ensures
        r == mentions_name_of(lower@, line@),
{
    let cs = to_chars(line);
    let n: usize = cs.len();
    let mut i: usize = 0;
    while i < n
        invariant
            cs@ == line@,
            i <= n == cs@.len(),
            i > 0 && i < n ==> !is_name_char(line@[i - 1]),
            forall|a: int, b: int|
                a < i && #[trigger] is_whole_name(line@, a, b) ==> !(identifies(
                    line@.subrange(a, b),
                ) && has_text(lower@, lowercase(line@.subrange(a, b)))),
        decreases n - i,
    {
        let name = name_at(&cs, i);
        let ghost rest = line@.skip(i as int);
        let ghost len = name_length(rest);
        proof {
            name_length_bounds(rest);
            assert(rest.take(len) =~= line@.subrange(i as int, i + len));
            assert forall|k: int| i <= k < i + len implies is_name_char(#[trigger] line@[k]) by {
                assert(rest[k - i] == line@[k]);
            }
            if i + len < n {
                assert(rest[len] == line@[i + len]);
            }
        }
        let name_len: usize = to_chars(name.as_str()).len();
        assert(name_len == len);
        if name_len > 0 {
            assert(is_whole_name(line@, i as int, i + len));
            if is_identifying(name.as_str()) && contains(lower, name.as_str().to_lowercase().as_str()) {
                assert(has_text(lower@, lowercase(line@.subrange(i as int, i + len))));
                return true;
            }
        }
        proof {
            let next = i + len;
            assert forall|a: int, b: int|
                a < next + 1 && #[trigger] is_whole_name(line@, a, b) implies !(identifies(
                line@.subrange(a, b),
            ) && has_text(lower@, lowercase(line@.subrange(a, b)))) by {
                if a >= i {
                    if a == next {
                        assert(is_name_char(line@[a]));
                        assert(false);
                    } else if a > i {
                        assert(is_name_char(line@[a - 1]));
                        assert(false);
                    } else {
                        if b < next {
                            assert(is_name_char(line@[b]));
                        }
                        if b > next {
                            assert(is_name_char(line@[next]));
                        }
                        assert(b == next);
                    }
                }
            }
        }
        let end: usize = i + name_len;
        i = if end < n { end + 1 } else { n };
    }
    proof {
        assert forall|a: int, b: int| #[trigger] is_whole_name(line@, a, b) implies !(identifies(
            line@.subrange(a, b),
        ) && has_text(lower@, lowercase(line@.subrange(a, b)))) by {
            assert(a < i);
        }
    }
    false
}

fn mentions_hunk(lower: &str, h: &Hunk) -> (r: bool)
    ensures
        r == mentions(lower@, h@),
{
    if contains(lower, tail_of(h.file.as_str()).as_str().to_lowercase().as_str()) {
        return true;
    }
    let mut i: usize = 0;
    while i < h.added.len()
        invariant
            i <= h.added@.len(),
            forall|j: int| 0 <= j < i ==> !mentions_name_of(lower@, #[trigger] h@.added[j]),
        decreases h.added@.len() - i,
    {
        assert(h@.added[i as int] == h.added@[i as int]@);
        if names_line(lower, h.added[i].as_str()) {
            return true;
        }
        i += 1;
    }
    false
}

/// The lines of the file, after the change, that a hunk spans: the first, and how many.
fn read_lines_of(h: &Hunk) -> (r: Option<(u32, usize)>)
    ensures
        match r {
            Some((start, span)) => new_side_start(h@.header, u32::MAX as nat) == Some(start as nat)
                && span == hunk_span(h@),
            None => new_side_start(h@.header, u32::MAX as nat) is None,
        },
{
    match hunk_start(h.header.as_str()) {
        Some(start) => {
            let kept: usize = count_kept(h.body.as_str());
            Some((start, if kept > 0 { kept } else { 1 }))
        },
        None => None,
    }
}

fn write_cite(start: u32, k: usize) -> (r: Vec<char>)
    ensures
        r@ == line_cite(start + k),
{
    let text = ":".to_owned().concat(show_wide(start as u128 + k as u128).as_str());
    to_chars(text.as_str())
}

fn alone_at(s: &[char], cite: &[char], i: usize) -> (r: bool)
    ensures
        r == stands_alone(s@, cite@, i as int),
{
    let n: usize = s.len();
    if !stands_at(s, cite, i) {
        return false;
    }
    assert(i + cite@.len() <= n);
    let end: usize = i + cite.len();
    !(end < n && '0' <= s[end] && s[end] <= '9')
}

fn own_number_at(s: &[char], number: &[char], i: usize) -> (r: bool)
    ensures
        r == is_own_number(s@, number@, i as int),
{
    let n: usize = s.len();
    if !stands_at(s, number, i) {
        return false;
    }
    assert(i + number@.len() <= n);
    let end: usize = i + number.len();
    !(i > 0 && is_part_of_name(s[i - 1])) && !(end < n && is_part_of_name(s[end]))
}

fn is_part_of_name(c: char) -> (r: bool)
    ensures
        r == is_name_char(c),
{
    c.is_alphanumeric() || c == '_'
}

fn holds_number(s: &[char], number: &[char]) -> (r: bool)
    ensures
        r == exists|i: int| #[trigger] is_own_number(s@, number@, i),
{
    let mut i: usize = 0;
    let n: usize = s.len();
    while i < n
        invariant
            i <= n == s@.len(),
            forall|j: int| 0 <= j < i ==> !#[trigger] is_own_number(s@, number@, j),
        decreases n - i,
    {
        if own_number_at(s, number, i) {
            assert(is_own_number(s@, number@, i as int));
            return true;
        }
        i += 1;
    }
    let last = own_number_at(s, number, n);
    proof {
        if last {
            assert(is_own_number(s@, number@, n as int));
        }
    }
    last
}

fn refers_to_hunk(s: &[char], h: &Hunk) -> (r: bool)
    ensures
        r == refers_to_line(s@, h@),
{
    let (start, span) = match read_lines_of(h) {
        Some(found) => found,
        None => {
            return false;
        },
    };
    let mut k: usize = 0;
    while k < span
        invariant
            k <= span,
            new_side_start(h@.header, u32::MAX as nat) == Some(start as nat),
            span == hunk_span(h@),
            forall|n: int| start <= n < start + k ==> !#[trigger] cites_number(s@, n),
        decreases span - k,
    {
        let number = to_chars(show_wide(start as u128 + k as u128).as_str());
        assert(number@ == decimal((start + k) as nat));
        if holds_number(s, &number) {
            assert(is_line_of(h@, start + k));
            assert(cites_number(s@, start + k));
            return true;
        }
        assert(!cites_number(s@, start + k));
        k += 1;
    }
    false
}

/// Deterministic check, run before any call. An answer that cites nothing from the
/// diff is wrong at no cost: one generic sentence about invariants would otherwise
/// score well on anything. The number of a line counts as a citation too, where the line is
/// one of the diff's.
pub fn cites_the_diff(answer: &str, hunks: &[Hunk]) -> (r: bool)
    ensures
        r == cites(answer@, hunk_models(hunks@)),
{
    let lower = answer.to_lowercase();
    let cs = to_chars(answer);
    let ghost hs = hunk_models(hunks@);
    let mut i: usize = 0;
    while i < hunks.len()
        invariant
            i <= hunks@.len(),
            hs == hunk_models(hunks@),
            lower@ == lowercase(answer@),
            cs@ == answer@,
            forall|j: int|
                0 <= j < i ==> !(mentions(lower@, #[trigger] hs[j]) || refers_to_line(
                    answer@,
                    hs[j],
                )),
        decreases hunks@.len() - i,
    {
        assert(hs[i as int] == hunks@[i as int]@);
        if mentions_hunk(lower.as_str(), &hunks[i]) || refers_to_hunk(&cs, &hunks[i]) {
            return true;
        }
        i += 1;
    }
    false
}

/// Whether `cite` follows `name` somewhere in `claim`, where each search for the name
/// goes on behind the last place found.
pub open spec fn cited_from(claim: Seq<char>, name: Seq<char>, cite: Seq<char>, from: int) -> bool
    decreases claim.len() - from + 1,
{
    match position_from(claim, name, from) {
        Some(i) => if 0 <= from <= i && i + name.len() <= claim.len() {
            let step = if name.len() > 0 { name.len() as int } else { 1 };
            stands_alone(claim, cite, i + name.len()) || cited_from(claim, name, cite, i + step)
        } else {
            false
        },
        None => false,
    }
}

/// Whether a claim names a line from `start` on, of the `span` lines there: its file,
/// by path or by name, a colon, and the number.
pub open spec fn cites_line_of(claim: Seq<char>, file: Seq<char>, start: int, span: int) -> bool {
    exists|n: int|
        start <= n < start + span && {
            let cite = #[trigger] line_cite(n);
            cited_from(claim, file, cite, 0) || cited_from(claim, file_tail(file), cite, 0)
        }
}

/// Whether a claim names a line of the hunk.
pub open spec fn cites_hunk_line(claim: Seq<char>, h: HunkModel) -> bool {
    match new_side_start(h.header, u32::MAX as nat) {
        Some(start) => cites_line_of(claim, h.file, start as int, hunk_span(h)),
        None => false,
    }
}

/// The new-side start out of `@@ -12,3 +88,9 @@`.
pub fn hunk_start(header: &str) -> (r: Option<u32>)
    ensures
        match r {
            Some(n) => new_side_start(header@, u32::MAX as nat) == Some(n as nat),
            None => new_side_start(header@, u32::MAX as nat) is None,
        },
{
    match read_new_start(header, u32::MAX as u64) {
        Some(n) => Some(n as u32),
        None => None,
    }
}

fn count_kept(body: &str) -> (r: usize)
    ensures
        r == kept_lines(lines_of(body@)),
{
    let all = lines(body);
    let ghost ls = texts(all@);
    let mut count: usize = 0;
    let mut i: usize = 1;
    while i < all.len()
        invariant
            1 <= i,
            i <= all@.len() || (i == 1 && all@.len() == 0),
            ls == texts(all@),
            count < i,
            i <= ls.len() ==> count == kept_lines(ls.take(i as int)),
            ls.len() == 0 ==> count == 0,
        decreases all@.len() - i,
    {
        proof {
            assert(ls.take(i + 1).drop_last() =~= ls.take(i as int));
            assert(ls.take(i + 1).last() == all@[i as int]@);
        }
        if !starts_with(all[i].as_str(), "-") {
            count += 1;
        }
        i += 1;
    }
    proof {
        if ls.len() > 0 {
            assert(ls.take(i as int) =~= ls);
        }
    }
    count
}

fn cites_after(claim: &[char], name: &[char], cite: &[char]) -> (r: bool)
    ensures
        r == cited_from(claim@, name@, cite@, 0),
{
    let n: usize = claim.len();
    let step: usize = if name.len() > 0 { name.len() } else { 1 };
    let mut from: usize = 0;
    loop
        invariant
            n == claim@.len(),
            step == if name@.len() > 0 { name@.len() as int } else { 1 },
            from <= n + 1,
            cited_from(claim@, name@, cite@, 0) == cited_from(claim@, name@, cite@, from as int),
        decreases n + 1 - from,
    {
        proof {
            position_from_meaning(claim@, name@, from as int);
        }
        match seek(claim, name, from) {
            None => {
                return false;
            },
            Some(i) => {
                assert(occurs_at(claim@, name@, i as int));
                if alone_at(claim, cite, i + name.len()) {
                    return true;
                }
                if i == n {
                    proof {
                        assert(position_from(claim@, name@, i + step) is None);
                        assert(!cited_from(claim@, name@, cite@, i + step));
                    }
                    return false;
                }
                from = i + step;
            },
        }
    }
}

fn claim_cites_hunk(claim: &str, h: &Hunk) -> (r: bool)
    ensures
        r == cites_hunk_line(claim@, h@),
{
    let (start, span) = match read_lines_of(h) {
        Some(found) => found,
        None => {
            return false;
        },
    };
    let cs = to_chars(claim);
    let file = to_chars(h.file.as_str());
    let tail = to_chars(tail_of(h.file.as_str()).as_str());
    let mut k: usize = 0;
    while k < span
        invariant
            k <= span,
            new_side_start(h@.header, u32::MAX as nat) == Some(start as nat),
            span == hunk_span(h@),
            cs@ == claim@,
            file@ == h@.file,
            tail@ == file_tail(h@.file),
            forall|n: int|
                start <= n < start + k ==> {
                    let cite = #[trigger] line_cite(n);
                    !cited_from(claim@, h@.file, cite, 0) && !cited_from(
                        claim@,
                        file_tail(h@.file),
                        cite,
                        0,
                    )
                },
        decreases span - k,
    {
        let cite = write_cite(start, k);
        if cites_after(&cs, &file, &cite) || cites_after(&cs, &tail, &cite) {
            assert(cites_line_of(claim@, h@.file, start as int, span as int));
            return true;
        }
        k += 1;
    }
    false
}

/// Guard on a dispute, run before any call. A dispute has to name a line that is
/// actually in the diff: not a file, a line. The check on answers accepts a bare
/// name, which is right for an answer and far too loose here: disputing has to cost
/// thought, or it becomes the free way past a question you did not like.
pub fn cites_a_changed_line(claim: &str, hunks: &[Hunk]) -> (r: bool)
    ensures
        r == cites_some_line(claim@, hunk_models(hunks@)),
{
    let ghost hs = hunk_models(hunks@);
    let mut i: usize = 0;
    while i < hunks.len()
        invariant
            i <= hunks@.len(),
            hs == hunk_models(hunks@),
            forall|j: int| 0 <= j < i ==> !cites_hunk_line(claim@, #[trigger] hs[j]),
        decreases hunks@.len() - i,
    {
        assert(hs[i as int] == hunks@[i as int]@);
        if claim_cites_hunk(claim, &hunks[i]) {
            return true;
        }
        i += 1;
    }
    false
}

/// Whether a claim names a line of one of the hunks.
pub open spec fn cites_some_line(claim: Seq<char>, hunks: Seq<HunkModel>) -> bool {
    exists|i: int| 0 <= i < hunks.len() && cites_hunk_line(claim, #[trigger] hunks[i])
}

/// A claim that names a line has a colon in it: naming the file alone is not enough.
pub proof fn a_line_is_named_with_a_colon(claim: Seq<char>, hunks: Seq<HunkModel>)
    requires
        cites_some_line(claim, hunks),
    ensures
        char_position(claim, ':') < claim.len(),
{
    let k = choose|k: int| 0 <= k < hunks.len() && cites_hunk_line(claim, #[trigger] hunks[k]);
    let h = hunks[k];
    let start = new_side_start(h.header, u32::MAX as nat)->0;
    let n = choose|n: int|
        start <= n < start + hunk_span(h) && {
            let cite = #[trigger] line_cite(n);
            cited_from(claim, h.file, cite, 0) || cited_from(claim, file_tail(h.file), cite, 0)
        };
    if cited_from(claim, h.file, line_cite(n), 0) {
        cited_has_colon(claim, h.file, n, 0);
    } else {
        cited_has_colon(claim, file_tail(h.file), n, 0);
    }
}

proof fn cited_has_colon(claim: Seq<char>, name: Seq<char>, n: int, from: int)
    requires
        cited_from(claim, name, line_cite(n), from),
    ensures
        char_position(claim, ':') < claim.len(),
    decreases claim.len() - from + 1,
{
    let i = position_from(claim, name, from)->0;
    let step = if name.len() > 0 { name.len() as int } else { 1 };
    let cite = line_cite(n);
    if stands_alone(claim, cite, i + name.len()) {
        reveal_strlit(":");
        assert(claim.subrange(i + name.len(), i + name.len() + cite.len())[0] == cite[0]);
        assert(claim[i + name.len()] == ':');
        crate::text::search::char_position_meaning(claim, ':');
    } else {
        cited_has_colon(claim, name, n, i + step);
    }
}

} // verus!
