//! What git is asked, and what its answers mean.

use vstd::prelude::*;
use vstd::string::StringExecFns;
use vstd::utf8::encode_utf8;
use crate::digest::{hex, hex_len, sha256, sha256_digest, to_hex};
use crate::text::chars::same;
use crate::text::search::{has_prefix, starts_with, strip_prefix, trim_start_matches, without_prefixes};
use crate::text::split::{
    at_most, clone_texts, collapse, collapsed, join, joined, lines, lines_of, listed, owned, pieces, split,
    texts, texts_push, trim, trimmed, words, words_of,
};

pub mod laws;

verus! {

// ---------------------------------------------------------------- hunks

/// A stretch of a diff that adds something.
#[derive(Debug)]
pub struct Hunk {
    pub file: String,
    /// Content hash of the added lines. It survives rebases and edits above the
    /// hunk, which the line numbers of the header do not.
    pub anchor: String,
    pub header: String,
    pub added: Vec<String>,
    pub body: String,
}

/// A hunk as its texts.
pub struct HunkModel {
    pub file: Seq<char>,
    pub anchor: Seq<char>,
    pub header: Seq<char>,
    pub added: Seq<Seq<char>>,
    pub body: Seq<char>,
}

impl View for Hunk {
    type V = HunkModel;

    open spec fn view(&self) -> HunkModel {
        HunkModel {
            file: self.file@,
            anchor: self.anchor@,
            header: self.header@,
            added: texts(self.added@),
            body: self.body@,
        }
    }
}

/// The texts of a list of hunks.
pub open spec fn hunk_models(hunks: Seq<Hunk>) -> Seq<HunkModel> {
    Seq::new(hunks.len(), |i: int| hunks[i]@)
}

/// Adding a hunk adds its texts.
pub broadcast proof fn hunk_models_push(hunks: Seq<Hunk>, h: Hunk)
    ensures
        #[trigger] hunk_models(hunks.push(h)) == hunk_models(hunks).push(h@),
{
    assert(hunk_models(hunks.push(h)) =~= hunk_models(hunks).push(h@));
}

impl Clone for Hunk {
    fn clone(&self) -> (r: Self)
        ensures
            r@ == self@,
    {
        Hunk {
            file: self.file.clone(),
            anchor: self.anchor.clone(),
            header: self.header.clone(),
            added: clone_texts(&self.added),
            body: self.body.clone(),
        }
    }
}

impl Hunk {
    /// What tells one hunk from another: its file and its anchor.
    pub fn key(&self) -> (r: (String, String))
        ensures
            r.0@ == self@.file,
            r.1@ == self@.anchor,
    {
        (self.file.clone(), self.anchor.clone())
    }
}

/// The text whose digest anchors a hunk: the added lines with their white space
/// collapsed, each ended by a line feed, and the blank ones left out.
pub open spec fn anchor_text(added: Seq<Seq<char>>) -> Seq<char>
    decreases added.len(),
{
    if added.len() == 0 {
        Seq::empty()
    } else {
        let line = collapsed(added.last());
        if line.len() == 0 {
            anchor_text(added.drop_last())
        } else {
            anchor_text(added.drop_last()) + line + "\n"@
        }
    }
}

/// How an anchor is written, given the digest.
pub open spec fn anchor_form(digest: Seq<u8>) -> Seq<char> {
    "sha256:"@ + hex(digest)
}

/// The anchor of a hunk that adds these lines.
pub open spec fn anchor_model(added: Seq<Seq<char>>) -> Seq<char> {
    anchor_form(sha256_digest(encode_utf8(anchor_text(added))))
}

/// The text whose digest anchors a hunk that adds these lines.
pub fn text_to_anchor(added: &[String]) -> (r: String)
    ensures
        r@ == anchor_text(texts(added@)),
{
    let mut text = String::new();
    let mut i: usize = 0;
    let ghost all = texts(added@);
    proof {
        assert(all.take(0) =~= Seq::empty());
    }
    while i < added.len()
        invariant
            i <= added@.len(),
            all == texts(added@),
            text@ == anchor_text(all.take(i as int)),
        decreases added@.len() - i,
    {
        let line = collapse(added[i].as_str());
        proof {
            assert(all.take(i + 1).drop_last() =~= all.take(i as int));
        }
        if !line.as_str().is_empty() {
            text.append(line.as_str());
            text.append("\n");
        }
        i += 1;
    }
    proof {
        assert(all.take(i as int) =~= all);
    }
    text
}

/// The anchor that a digest makes.
pub fn anchor_from_digest(digest: &[u8]) -> (r: String)
    ensures
        r@ == anchor_form(digest@),
        r@.len() == 7 + 2 * digest@.len(),
{
    proof {
        reveal_strlit("sha256:");
        hex_len(digest@);
    }
    "sha256:".to_owned().concat(to_hex(digest).as_str())
}

/// Hash of the added lines with indentation dropped and internal white space
/// collapsed, so reindentation and reflowing do not invalidate an anchor.
pub fn anchor_of(added: &[String]) -> (r: String)
    ensures
        r@ == anchor_model(texts(added@)),
        r@.len() == 71,
{
    let text = text_to_anchor(added);
    anchor_from_digest(&sha256(text.as_str().as_bytes()))
}

/// Whether a line of a diff opens the part on one file.
pub open spec fn opens_file(line: Seq<char>) -> bool {
    has_prefix(line, "diff --git "@)
}

/// Whether a line of a diff opens a hunk.
pub open spec fn opens_hunk(line: Seq<char>) -> bool {
    !opens_file(line) && has_prefix(line, "@@"@)
}

/// The file that a `diff --git` line is about: its side after the change.
pub open spec fn file_named(line: Seq<char>) -> Seq<char> {
    let names = line.skip("diff --git "@.len() as int);
    let sides = pieces(names, " b/"@);
    if sides.len() > 1 {
        sides[1]
    } else {
        without_prefixes(names, "a/"@)
    }
}

/// How many lines at the front of `ls` belong to a hunk that was opened before them.
pub open spec fn hunk_length(ls: Seq<Seq<char>>) -> int
    decreases ls.len(),
{
    if ls.len() == 0 || opens_file(ls[0]) || opens_hunk(ls[0]) {
        0
    } else {
        1 + hunk_length(ls.skip(1))
    }
}

/// Whether a line inside a hunk is a file marker, which is no content.
pub open spec fn is_file_marker(line: Seq<char>) -> bool {
    has_prefix(line, "+++"@) || has_prefix(line, "---"@)
}

/// The content among the lines of a hunk.
pub open spec fn content_lines(ls: Seq<Seq<char>>) -> Seq<Seq<char>>
    decreases ls.len(),
{
    if ls.len() == 0 {
        Seq::empty()
    } else if is_file_marker(ls.last()) {
        content_lines(ls.drop_last())
    } else {
        content_lines(ls.drop_last()).push(ls.last())
    }
}

/// The added lines of a hunk, without their plus.
pub open spec fn added_lines(ls: Seq<Seq<char>>) -> Seq<Seq<char>>
    decreases ls.len(),
{
    if ls.len() == 0 {
        Seq::empty()
    } else if !is_file_marker(ls.last()) && has_prefix(ls.last(), "+"@) {
        added_lines(ls.drop_last()).push(ls.last().skip(1))
    } else {
        added_lines(ls.drop_last())
    }
}

/// The hunk that `header` opens in `file`, with the lines that follow it.
pub open spec fn hunk_model(file: Seq<char>, header: Seq<char>, ls: Seq<Seq<char>>) -> HunkModel {
    HunkModel {
        file,
        anchor: anchor_model(added_lines(ls)),
        header,
        added: added_lines(ls),
        body: joined(seq![header] + content_lines(ls), "\n"@),
    }
}

/// The hunks of a diff from here on, where `file` is the file that it is about
/// so far. A hunk that adds nothing is left out.
pub open spec fn hunks_in(file: Seq<char>, ls: Seq<Seq<char>>) -> Seq<HunkModel>
    decreases ls.len(),
{
    if ls.len() == 0 {
        Seq::empty()
    } else if opens_file(ls[0]) {
        hunks_in(file_named(ls[0]), ls.skip(1))
    } else if opens_hunk(ls[0]) {
        let n = hunk_length(ls.skip(1));
        let lines = ls.skip(1).take(n);
        let rest = hunks_in(file, ls.skip(1));
        if added_lines(lines).len() > 0 {
            seq![hunk_model(file, ls[0], lines)] + rest
        } else {
            rest
        }
    } else {
        hunks_in(file, ls.skip(1))
    }
}

/// The hunks of a diff.
pub open spec fn hunks_of(diff: Seq<char>) -> Seq<HunkModel> {
    hunks_in(Seq::empty(), lines_of(diff))
}

proof fn hunk_length_unique(ls: Seq<Seq<char>>, i: int)
    requires
        0 <= i <= ls.len(),
        forall|j: int| 0 <= j < i ==> !opens_file(ls[j]) && !opens_hunk(ls[j]),
        i < ls.len() ==> opens_file(ls[i]) || opens_hunk(ls[i]),
    ensures
        hunk_length(ls) == i,
    decreases ls.len(),
{
    if i > 0 {
        assert(!opens_file(ls[0]) && !opens_hunk(ls[0]));
        assert forall|j: int| 0 <= j < i - 1 implies !opens_file(ls.skip(1)[j]) && !opens_hunk(
            ls.skip(1)[j],
        ) by {
            assert(ls.skip(1)[j] == ls[j + 1]);
        }
        hunk_length_unique(ls.skip(1), i - 1);
    }
}

/// The file that a `diff --git` line is about, given what follows these words.
pub(crate) fn read_file_name(names: &str) -> (r: String)
    ensures
        ({
            let sides = pieces(names@, " b/"@);
            r@ == if sides.len() > 1 {
                sides[1]
            } else {
                without_prefixes(names@, "a/"@)
            }
        }),
{
    let sides = split(names, " b/");
    proof {
        assert(texts(sides@).len() == sides@.len());
    }
    if sides.len() > 1 {
        assert(texts(sides@)[1] == sides@[1]@);
        sides[1].clone()
    } else {
        trim_start_matches(names, "a/")
    }
}

/// The hunks of a diff, in order. Only hunks that add a line count.
pub fn parse_diff(diff: &str) -> (r: Vec<Hunk>)
    ensures
        hunk_models(r@) == hunks_of(diff@),
{
    broadcast use {texts_push, hunk_models_push};

    let all = lines(diff);
    let ghost ls = texts(all@);
    let mut hunks: Vec<Hunk> = Vec::new();
    let mut file = String::new();
    let mut i: usize = 0;
    proof {
        assert(ls.skip(0) =~= ls);
        assert(hunk_models(hunks@) + hunks_of(diff@) =~= hunks_of(diff@));
    }
    while i < all.len()
        invariant
            i <= all@.len(),
            ls == texts(all@),
            ls == lines_of(diff@),
            hunks_of(diff@) == hunk_models(hunks@) + hunks_in(file@, ls.skip(i as int)),
        decreases all@.len() - i,
    {
        let line = all[i].as_str();
        proof {
            assert(ls.skip(i as int).skip(1) =~= ls.skip(i + 1));
            assert(ls.skip(i as int)[0] == line@);
        }
        if let Some(names) = strip_prefix(line, "diff --git ") {
            file = read_file_name(names.as_str());
        } else if starts_with(line, "@@") {
            let mut added: Vec<String> = Vec::new();
            let mut body: Vec<String> = Vec::new();
            body.push(line.to_owned());
            let ghost after = ls.skip(i + 1);
            let mut j: usize = i + 1;
            proof {
                assert(after.take(0) =~= Seq::empty());
                assert(texts(body@) =~= seq![line@] + content_lines(after.take(0)));
                assert(texts(added@) =~= added_lines(after.take(0)));
            }
            while j < all.len() && !starts_with(all[j].as_str(), "diff --git ") && !starts_with(
                all[j].as_str(),
                "@@",
            )
                invariant
                    i < j <= all@.len(),
                    ls == texts(all@),
                    after == ls.skip(i + 1),
                    forall|k: int|
                        0 <= k < j - (i + 1) ==> !opens_file(after[k]) && !opens_hunk(after[k]),
                    texts(body@) == seq![line@] + content_lines(after.take(j - (i + 1))),
                    texts(added@) == added_lines(after.take(j - (i + 1))),
                decreases all@.len() - j,
            {
                let inner = all[j].as_str();
                let ghost k = j - (i + 1);
                proof {
                    assert(after[k] == inner@);
                    assert(after.take(k + 1).drop_last() =~= after.take(k));
                    assert(after.take(k + 1).last() == inner@);
                }
                if !(starts_with(inner, "+++") || starts_with(inner, "---")) {
                    body.push(inner.to_owned());
                    proof {
                        assert((seq![line@] + content_lines(after.take(k))).push(inner@)
                            =~= seq![line@] + content_lines(after.take(k + 1)));
                        reveal_strlit("+");
                    }
                    if let Some(content) = strip_prefix(inner, "+") {
                        added.push(content);
                    }
                }
                j += 1;
            }
            proof {
                if j < all@.len() {
                    assert(after[j - (i + 1)] == all@[j as int]@);
                }
                hunk_length_unique(after, j - (i + 1));
                hunks_skip_lines(file@, after, j - (i + 1));
                assert(after.skip(j - (i + 1)) =~= ls.skip(j as int));
            }
            let ghost before = hunk_models(hunks@);
            if added.len() > 0 {
                let h = Hunk {
                    file: file.clone(),
                    anchor: anchor_of(&added),
                    header: line.to_owned(),
                    added,
                    body: join(&body, "\n"),
                };
                proof {
                    assert(h@ == hunk_model(file@, line@, after.take(j - (i + 1))));
                    assert(before + hunks_in(file@, ls.skip(i as int)) =~= before.push(h@)
                        + hunks_in(file@, ls.skip(j as int)));
                }
                hunks.push(h);
            }
            i = j - 1;
        }
        i += 1;
    }
    proof {
        assert(hunk_models(hunks@) + hunks_in(file@, ls.skip(i as int)) =~= hunk_models(hunks@));
    }
    hunks
}

/// Lines that open nothing hold no hunk.
proof fn hunks_skip_lines(file: Seq<char>, ls: Seq<Seq<char>>, n: int)
    requires
        0 <= n <= ls.len(),
        forall|j: int| 0 <= j < n ==> !opens_file(ls[j]) && !opens_hunk(ls[j]),
    ensures
        hunks_in(file, ls) == hunks_in(file, ls.skip(n)),
    decreases n,
{
    if n == 0 {
        assert(ls.skip(0) =~= ls);
    } else {
        assert(!opens_file(ls[0]) && !opens_hunk(ls[0]));
        assert forall|j: int| 0 <= j < n - 1 implies !opens_file(ls.skip(1)[j]) && !opens_hunk(
            ls.skip(1)[j],
        ) by {
            assert(ls.skip(1)[j] == ls[j + 1]);
        }
        hunks_skip_lines(file, ls.skip(1), n - 1);
        assert(ls.skip(1).skip(n - 1) =~= ls.skip(n));
    }
}

/// Spacing does not show in an anchor: lines that hold the same words, in
/// whatever indentation and with whatever blanks between them, anchor alike.
pub proof fn anchor_ignores_spacing(a: Seq<Seq<char>>, b: Seq<Seq<char>>)
    requires
        a.len() == b.len(),
        forall|i: int| 0 <= i < a.len() ==> words_of(#[trigger] a[i]) == words_of(b[i]),
    ensures
        anchor_model(a) == anchor_model(b),
{
    anchor_text_ignores_spacing(a, b);
}

proof fn anchor_text_ignores_spacing(a: Seq<Seq<char>>, b: Seq<Seq<char>>)
    requires
        a.len() == b.len(),
        forall|i: int| 0 <= i < a.len() ==> words_of(#[trigger] a[i]) == words_of(b[i]),
    ensures
        anchor_text(a) == anchor_text(b),
    decreases a.len(),
{
    if a.len() > 0 {
        assert(words_of(a[a.len() - 1]) == words_of(b[b.len() - 1]));
        assert forall|i: int| 0 <= i < a.len() - 1 implies words_of(#[trigger] a.drop_last()[i])
            == words_of(b.drop_last()[i]) by {
            assert(words_of(a[i]) == words_of(b[i]));
        }
        anchor_text_ignores_spacing(a.drop_last(), b.drop_last());
    }
}

/// Blank lines do not show in an anchor.
pub proof fn anchor_ignores_blank_lines(before: Seq<Seq<char>>, blank: Seq<char>, after: Seq<Seq<char>>)
    requires
        words_of(blank).len() == 0,
    ensures
        anchor_model(before.push(blank) + after) == anchor_model(before + after),
{
    anchor_text_ignores_blank_lines(before, blank, after);
}

proof fn anchor_text_ignores_blank_lines(
    before: Seq<Seq<char>>,
    blank: Seq<char>,
    after: Seq<Seq<char>>,
)
    requires
        words_of(blank).len() == 0,
    ensures
        anchor_text(before.push(blank) + after) == anchor_text(before + after),
    decreases after.len(),
{
    let a = before.push(blank) + after;
    let b = before + after;
    if after.len() == 0 {
        assert(a.drop_last() =~= b);
        assert(a.last() == blank);
    } else {
        anchor_text_ignores_blank_lines(before, blank, after.drop_last());
        assert(a.drop_last() =~= before.push(blank) + after.drop_last());
        assert(b.drop_last() =~= before + after.drop_last());
    }
}

/// Every hunk of a diff is opened by a hunk header, adds at least one line, is
/// anchored by the lines it adds, and none of these is a file marker in disguise.
pub proof fn hunks_are_well_formed(diff: Seq<char>, i: int)
    requires
        0 <= i < hunks_of(diff).len(),
    ensures
        opens_hunk(hunks_of(diff)[i].header),
        hunks_of(diff)[i].added.len() > 0,
        hunks_of(diff)[i].anchor == anchor_model(hunks_of(diff)[i].added),
        forall|k: int|
            0 <= k < hunks_of(diff)[i].added.len() ==> !has_prefix(
                #[trigger] hunks_of(diff)[i].added[k],
                "++"@,
            ),
{
    hunks_in_well_formed(Seq::empty(), lines_of(diff), i);
}

proof fn hunks_in_well_formed(file: Seq<char>, ls: Seq<Seq<char>>, i: int)
    requires
        0 <= i < hunks_in(file, ls).len(),
    ensures
        opens_hunk(hunks_in(file, ls)[i].header),
        hunks_in(file, ls)[i].added.len() > 0,
        hunks_in(file, ls)[i].anchor == anchor_model(hunks_in(file, ls)[i].added),
        forall|k: int|
            0 <= k < hunks_in(file, ls)[i].added.len() ==> !has_prefix(
                #[trigger] hunks_in(file, ls)[i].added[k],
                "++"@,
            ),
    decreases ls.len(),
{
    if opens_file(ls[0]) {
        hunks_in_well_formed(file_named(ls[0]), ls.skip(1), i);
    } else if opens_hunk(ls[0]) {
        let body = ls.skip(1).take(hunk_length(ls.skip(1)));
        let rest = hunks_in(file, ls.skip(1));
        if added_lines(body).len() > 0 {
            if i == 0 {
                added_lines_are_no_markers(body);
                assert(hunks_in(file, ls)[0] == hunk_model(file, ls[0], body));
            } else {
                assert(hunks_in(file, ls)[i] == rest[i - 1]);
                hunks_in_well_formed(file, ls.skip(1), i - 1);
            }
        } else {
            hunks_in_well_formed(file, ls.skip(1), i);
        }
    } else {
        hunks_in_well_formed(file, ls.skip(1), i);
    }
}

proof fn added_lines_are_no_markers(ls: Seq<Seq<char>>)
    ensures
        forall|k: int|
            0 <= k < added_lines(ls).len() ==> !has_prefix(#[trigger] added_lines(ls)[k], "++"@),
    decreases ls.len(),
{
    if ls.len() > 0 {
        added_lines_are_no_markers(ls.drop_last());
        let line = ls.last();
        if !is_file_marker(line) && has_prefix(line, "+"@) {
            reveal_strlit("+");
            reveal_strlit("++");
            reveal_strlit("+++");
            assert(line.subrange(0, 1)[0] == '+');
            assert(line[0] == '+');
            if has_prefix(line.skip(1), "++"@) {
                assert(line.skip(1).subrange(0, 2)[0] == '+');
                assert(line.skip(1).subrange(0, 2)[1] == '+');
                assert(line[1] == '+' && line[2] == '+');
                assert(line.subrange(0, 3) =~= "+++"@);
            }
            let rest = added_lines(ls.drop_last());
            assert forall|k: int| 0 <= k < added_lines(ls).len() implies !has_prefix(
                #[trigger] added_lines(ls)[k],
                "++"@,
            ) by {
                if k < rest.len() {
                    assert(added_lines(ls)[k] == rest[k]);
                } else {
                    assert(added_lines(ls)[k] == line.skip(1));
                }
            }
        }
    }
}

/// Line numbers do not show in an anchor: where two diffs differ in hunk headers
/// only, their hunks agree in file, added lines and anchor.
pub proof fn anchors_survive_line_number_shift(a: Seq<char>, b: Seq<char>)
    requires
        lines_of(a).len() == lines_of(b).len(),
        forall|i: int|
            0 <= i < lines_of(a).len() ==> (#[trigger] lines_of(a)[i] == lines_of(b)[i] || (
            opens_hunk(lines_of(a)[i]) && opens_hunk(lines_of(b)[i]))),
    ensures
        hunks_of(a).len() == hunks_of(b).len(),
        forall|i: int|
            0 <= i < hunks_of(a).len() ==> {
                &&& (#[trigger] hunks_of(a)[i]).file == hunks_of(b)[i].file
                &&& hunks_of(a)[i].added == hunks_of(b)[i].added
                &&& hunks_of(a)[i].anchor == hunks_of(b)[i].anchor
            },
{
    hunks_survive_shift(Seq::empty(), lines_of(a), lines_of(b));
}

/// Whether two lists of diff lines differ in hunk headers only.
spec fn differ_in_headers(a: Seq<Seq<char>>, b: Seq<Seq<char>>) -> bool {
    &&& a.len() == b.len()
    &&& forall|i: int|
        0 <= i < a.len() ==> (#[trigger] a[i] == b[i] || (opens_hunk(a[i]) && opens_hunk(b[i])))
}

proof fn hunk_length_survives_shift(a: Seq<Seq<char>>, b: Seq<Seq<char>>)
    requires
        differ_in_headers(a, b),
    ensures
        hunk_length(a) == hunk_length(b),
        0 <= hunk_length(a) <= a.len(),
        a.take(hunk_length(a)) == b.take(hunk_length(a)),
    decreases a.len(),
{
    if a.len() == 0 {
        assert(a.take(0) =~= b.take(0));
    } else if opens_file(a[0]) || opens_hunk(a[0]) {
        assert(a[0] == b[0] || opens_hunk(b[0]));
        assert(a.take(0) =~= b.take(0));
    } else {
        assert(a[0] == b[0]);
        assert(differ_in_headers(a.skip(1), b.skip(1))) by {
            assert forall|i: int| 0 <= i < a.skip(1).len() implies (#[trigger] a.skip(1)[i]
                == b.skip(1)[i] || (opens_hunk(a.skip(1)[i]) && opens_hunk(b.skip(1)[i]))) by {
                assert(a[i + 1] == b[i + 1] || opens_hunk(a[i + 1]));
            }
        }
        hunk_length_survives_shift(a.skip(1), b.skip(1));
        let n = hunk_length(a.skip(1));
        assert(a.take(n + 1) =~= seq![a[0]] + a.skip(1).take(n));
        assert(b.take(n + 1) =~= seq![b[0]] + b.skip(1).take(n));
    }
}

proof fn hunks_survive_shift(file: Seq<char>, a: Seq<Seq<char>>, b: Seq<Seq<char>>)
    requires
        differ_in_headers(a, b),
    ensures
        hunks_in(file, a).len() == hunks_in(file, b).len(),
        forall|i: int|
            0 <= i < hunks_in(file, a).len() ==> {
                &&& (#[trigger] hunks_in(file, a)[i]).file == hunks_in(file, b)[i].file
                &&& hunks_in(file, a)[i].added == hunks_in(file, b)[i].added
                &&& hunks_in(file, a)[i].anchor == hunks_in(file, b)[i].anchor
            },
    decreases a.len(),
{
    if a.len() > 0 {
        assert(differ_in_headers(a.skip(1), b.skip(1))) by {
            assert forall|i: int| 0 <= i < a.skip(1).len() implies (#[trigger] a.skip(1)[i]
                == b.skip(1)[i] || (opens_hunk(a.skip(1)[i]) && opens_hunk(b.skip(1)[i]))) by {
                assert(a[i + 1] == b[i + 1] || opens_hunk(a[i + 1]));
            }
        }
        assert(a[0] == b[0] || (opens_hunk(a[0]) && opens_hunk(b[0])));
        if opens_file(a[0]) {
            hunks_survive_shift(file_named(a[0]), a.skip(1), b.skip(1));
        } else {
            hunks_survive_shift(file, a.skip(1), b.skip(1));
            if opens_hunk(a[0]) {
                hunk_length_survives_shift(a.skip(1), b.skip(1));
                let n = hunk_length(a.skip(1));
                let body = a.skip(1).take(n);
                let ra = hunks_in(file, a.skip(1));
                let rb = hunks_in(file, b.skip(1));
                if added_lines(body).len() > 0 {
                    assert forall|i: int| 0 <= i < hunks_in(file, a).len() implies {
                        &&& (#[trigger] hunks_in(file, a)[i]).file == hunks_in(file, b)[i].file
                        &&& hunks_in(file, a)[i].added == hunks_in(file, b)[i].added
                        &&& hunks_in(file, a)[i].anchor == hunks_in(file, b)[i].anchor
                    } by {
                        if i > 0 {
                            assert(hunks_in(file, a)[i] == ra[i - 1]);
                            assert(hunks_in(file, b)[i] == rb[i - 1]);
                        } else {
                            assert(hunks_in(file, a)[0] == hunk_model(file, a[0], body));
                            assert(hunks_in(file, b)[0] == hunk_model(file, b[0], body));
                        }
                    }
                }
            }
        }
    }
}

// ---------------------------------------------------------------- answers

/// The root of the work tree, from what `rev-parse --show-toplevel` prints.
pub fn repo_root(out: &str) -> (r: String)
    ensures
        r@ == trimmed(out@),
{
    trim(out)
}

/// The branch that is checked out, from what `rev-parse --abbrev-ref HEAD` prints.
pub fn current_branch(out: &str) -> (r: String)
    ensures
        r@ == trimmed(out@),
{
    trim(out)
}

/// The commit that a revision names, from what `rev-parse` prints.
pub fn rev_parse(out: &str) -> (r: String)
    ensures
        r@ == trimmed(out@),
{
    trim(out)
}

/// The best common ancestor, from what `merge-base` prints.
pub fn merge_base(out: &str) -> (r: String)
    ensures
        r@ == trimmed(out@),
{
    trim(out)
}

/// The remote to work against, from what `remote` prints: `origin` where there is
/// one of that name, the first one otherwise, none where there is no remote.
/// Never assume `origin`.
pub fn default_remote(out: &str) -> (r: Option<String>)
    ensures
        match r {
            None => words_of(out@).len() == 0,
            Some(name) => {
                &&& words_of(out@).len() > 0
                &&& name@ == if words_of(out@).contains("origin"@) {
                    "origin"@
                } else {
                    words_of(out@)[0]
                }
            },
        },
{
    let list = words(out);
    proof {
        assert(texts(list@).len() == list@.len());
    }
    if list.len() == 0 {
        return None;
    }
    assert(texts(list@)[0] == list@[0]@);
    if listed(&list, "origin") {
        Some("origin".to_owned())
    } else {
        Some(list[0].clone())
    }
}

/// Whether nothing is left of a diff once white space is ignored, from what
/// `diff -w` prints.
pub fn diff_ignoring_whitespace_empty(out: &str) -> (r: bool)
    ensures
        r == (trimmed(out@).len() == 0),
{
    trim(out).as_str().is_empty()
}

/// The hunks introduced by a single commit, from what `diff-tree -p` prints.
pub fn commit_hunks(out: &str) -> (r: Vec<Hunk>)
    ensures
        hunk_models(r@) == hunks_of(out@),
{
    parse_diff(out)
}

/// The files changed between two revisions, from what `diff --name-only` prints.
pub fn changed_files(out: &str) -> (r: Vec<String>)
    ensures
        texts(r@) == lines_of(out@),
{
    lines(out)
}

/// Whether a change consists of renames at full similarity alone, and of at least
/// one, from what `diff --find-renames=100% --name-status` prints.
pub fn all_hunks_are_pure_renames(out: &str) -> (r: bool)
    ensures
        r == (lines_of(out@).len() > 0 && forall|i: int|
            0 <= i < lines_of(out@).len() ==> has_prefix(#[trigger] lines_of(out@)[i], "R"@)),
{
    let all = lines(out);
    let ghost ls = texts(all@);
    let mut i: usize = 0;
    while i < all.len()
        invariant
            i <= all@.len(),
            ls == texts(all@),
            ls == lines_of(out@),
            forall|j: int| 0 <= j < i ==> has_prefix(#[trigger] ls[j], "R"@),
        decreases all@.len() - i,
    {
        assert(ls[i as int] == all@[i as int]@);
        if !starts_with(all[i].as_str(), "R") {
            return false;
        }
        i += 1;
    }
    all.len() > 0
}

/// Whether a line of `git grep -n` points outside the files in `exclude`.
pub open spec fn hit_outside(exclude: Seq<Seq<char>>) -> spec_fn(Seq<char>) -> bool {
    |line: Seq<char>| !exclude.contains(pieces(line, ":"@)[0])
}

/// At most forty of the lines that `git grep -n` printed, those in `exclude` left out.
pub open spec fn grep_hits(out: Seq<char>, exclude: Seq<Seq<char>>) -> Seq<Seq<char>> {
    at_most(lines_of(out).filter(hit_outside(exclude)), 40)
}

/// The places where a symbol is used outside the files in `exclude`, at most
/// forty, from what `git grep -n -w` prints. Git reports failure where nothing
/// matches, which is `None` here.
pub fn grep_symbol(out: Option<&str>, exclude: &[String]) -> (r: Vec<String>)
    ensures
        texts(r@) == match out {
            Some(text) => grep_hits(text@, texts(exclude@)),
            None => Seq::<Seq<char>>::empty(),
        },
{
    broadcast use texts_push;

    let mut hits: Vec<String> = Vec::new();
    let text = match out {
        Some(text) => text,
        None => {
            assert(texts(hits@) =~= Seq::<Seq<char>>::empty());
            return hits;
        },
    };
    let all = lines(text);
    let ghost ls = texts(all@);
    let ghost keep = hit_outside(texts(exclude@));
    let mut i: usize = 0;
    proof {
        assert(ls.take(0).filter(keep) =~= Seq::empty()) by {
            reveal(Seq::filter);
        }
        assert(texts(hits@) =~= ls.take(0).filter(keep));
    }
    while i < all.len() && hits.len() < 40
        invariant
            i <= all@.len(),
            ls == texts(all@),
            keep == hit_outside(texts(exclude@)),
            hits@.len() <= 40,
            texts(hits@) == ls.take(i as int).filter(keep),
        decreases all@.len() - i,
    {
        let line = all[i].as_str();
        let fields = split(line, ":");
        proof {
            pieces_not_empty(line@, ":"@);
            assert(texts(fields@).len() == fields@.len());
            assert(texts(fields@)[0] == fields@[0]@);
            assert(ls.take(i + 1) =~= ls.take(i as int).push(line@));
            ls.take(i as int).lemma_filter_push(line@, keep);
        }
        if !listed(exclude, fields[0].as_str()) {
            hits.push(all[i].clone());
        }
        i += 1;
    }
    proof {
        assert(texts(hits@).len() == hits@.len());
        assert(ls =~= ls.take(i as int) + ls.skip(i as int));
        Seq::filter_distributes_over_add(ls.take(i as int), ls.skip(i as int), keep);
        let kept = ls.filter(keep);
        if i as int == ls.len() {
            assert(ls.take(i as int) =~= ls);
            assert(texts(hits@) =~= at_most(kept, 40));
        } else {
            assert(texts(hits@) =~= kept.take(40));
            if kept.len() == 40 {
                assert(kept.take(40) =~= kept);
            }
        }
    }
    hits
}

/// The files marked in a list of attributes: each is its path, the name of the attribute and
/// its value.
pub open spec fn marked_files(fields: Seq<Seq<char>>) -> Seq<Seq<char>>
    decreases fields.len(),
{
    if fields.len() < 3 {
        Seq::empty()
    } else if fields[2] == "set"@ || fields[2] == "true"@ {
        seq![fields[0]] + marked_files(fields.skip(3))
    } else {
        marked_files(fields.skip(3))
    }
}

/// The files that the repository marks as generated, from what `check-attr -z` prints.
pub fn marked_generated(out: &str) -> (r: Vec<String>)
    ensures
        texts(r@) == marked_files(pieces(out@, "\u{0}"@)),
{
    broadcast use texts_push;

    let fields = split(out, "\u{0}");
    let ghost fs = texts(fields@);
    let mut files: Vec<String> = Vec::new();
    let mut i: usize = 0;
    proof {
        assert(fs.skip(0) =~= fs);
        assert(texts(files@) + marked_files(fs) =~= marked_files(fs));
    }
    while fields.len() - i >= 3
        invariant
            i <= fields@.len(),
            fs == texts(fields@),
            marked_files(fs) == texts(files@) + marked_files(fs.skip(i as int)),
        decreases fields@.len() - i,
    {
        let ghost before = texts(files@);
        let ghost rest = marked_files(fs.skip(i + 3));
        proof {
            assert(fs.skip(i as int).skip(3) =~= fs.skip(i + 3));
            assert(fs.skip(i as int)[0] == fields@[i as int]@);
            assert(fs.skip(i as int)[2] == fields@[i + 2]@);
        }
        if same(fields[i + 2].as_str(), "set") || same(fields[i + 2].as_str(), "true") {
            let file = fields[i].clone();
            assert(before + (seq![file@] + rest) =~= before.push(file@) + rest);
            files.push(file);
        }
        i += 3;
    }
    proof {
        assert(texts(files@) + marked_files(fs.skip(i as int)) =~= texts(files@));
    }
    files
}

/// A text has at least one piece.
pub proof fn pieces_not_empty(s: Seq<char>, sep: Seq<char>)
    ensures
        pieces(s, sep).len() > 0,
{
}

// ---------------------------------------------------------------- questions

/// What git can be asked.
pub enum Query {
    RepoRoot,
    CurrentBranch,
    RevParse { rev: String },
    RefExists { name: String },
    Remotes,
    RemoteHead { remote: String },
    MergeBase { a: String, b: String },
    Diff { base: String, head: String },
    DiffIgnoringWhitespace { base: String, head: String },
    CommitPatch { sha: String },
    ChangedFiles { base: String, head: String },
    Renames { base: String, head: String },
    Grep { symbol: String },
    Log { base: String, head: String },
    /// Which of these files the repository marks as generated.
    Marks { files: Vec<String> },
}

/// The range of commits from `base` to `head`.
pub open spec fn range_text(base: Seq<char>, head: Seq<char>) -> Seq<char> {
    base + ".."@ + head
}

/// The arguments that ask git a question.
pub open spec fn query_args(q: Query) -> Seq<Seq<char>> {
    match q {
        Query::RepoRoot => seq!["rev-parse"@, "--show-toplevel"@],
        Query::CurrentBranch => seq!["rev-parse"@, "--abbrev-ref"@, "HEAD"@],
        Query::RevParse { rev } => seq!["rev-parse"@, rev@],
        Query::RefExists { name } => seq!["rev-parse"@, "--verify"@, "--quiet"@, name@],
        Query::Remotes => seq!["remote"@],
        Query::RemoteHead { remote } => seq!["symbolic-ref"@, "refs/remotes/"@ + remote@ + "/HEAD"@],
        Query::MergeBase { a, b } => seq!["merge-base"@, a@, b@],
        Query::Diff { base, head } => seq![
            "diff"@,
            "--find-renames"@,
            "--no-color"@,
            range_text(base@, head@),
        ],
        Query::DiffIgnoringWhitespace { base, head } => seq![
            "diff"@,
            "-w"@,
            "--no-color"@,
            range_text(base@, head@),
        ],
        Query::CommitPatch { sha } => seq![
            "diff-tree"@,
            "-p"@,
            "--find-renames"@,
            "--no-color"@,
            "--no-commit-id"@,
            "-r"@,
            sha@,
        ],
        Query::ChangedFiles { base, head } => seq![
            "diff"@,
            "--name-only"@,
            range_text(base@, head@),
        ],
        Query::Renames { base, head } => seq![
            "diff"@,
            "--find-renames=100%"@,
            "--name-status"@,
            range_text(base@, head@),
        ],
        Query::Grep { symbol } => seq!["grep"@, "-n"@, "-w"@, "--"@, symbol@],
        Query::Log { base, head } => seq![
            "log"@,
            "--format=%H%x00%(trailers:key=Co-Authored-By,valueonly)%x00"@,
            range_text(base@, head@),
        ],
        Query::Marks { files } => seq!["check-attr"@, "-z"@, "linguist-generated"@, "--"@] + texts(
            files@,
        ),
    }
}

/// The range of commits from `base` to `head`.
fn range(base: &str, head: &str) -> (r: String)
    ensures
        r@ == range_text(base@, head@),
{
    base.to_owned().concat("..").concat(head)
}

impl Query {
    /// The arguments that ask git this.
    pub fn args(&self) -> (r: Vec<String>)
        ensures
            texts(r@) == query_args(*self),
    {
        let args: Vec<String> = match self {
            Query::RepoRoot => owned(&["rev-parse", "--show-toplevel"]),
            Query::CurrentBranch => owned(&["rev-parse", "--abbrev-ref", "HEAD"]),
            Query::RevParse { rev } => owned(&["rev-parse", rev.as_str()]),
            Query::RefExists { name } => owned(
                &["rev-parse", "--verify", "--quiet", name.as_str()],
            ),
            Query::Remotes => owned(&["remote"]),
            Query::RemoteHead { remote } => {
                let head = "refs/remotes/".to_owned().concat(remote.as_str()).concat("/HEAD");
                owned(&["symbolic-ref", head.as_str()])
            },
            Query::MergeBase { a, b } => owned(&["merge-base", a.as_str(), b.as_str()]),
            Query::Diff { base, head } => {
                let r = range(base.as_str(), head.as_str());
                owned(&["diff", "--find-renames", "--no-color", r.as_str()])
            },
            Query::DiffIgnoringWhitespace { base, head } => {
                let r = range(base.as_str(), head.as_str());
                owned(&["diff", "-w", "--no-color", r.as_str()])
            },
            Query::CommitPatch { sha } => owned(
                &[
                    "diff-tree",
                    "-p",
                    "--find-renames",
                    "--no-color",
                    "--no-commit-id",
                    "-r",
                    sha.as_str(),
                ],
            ),
            Query::ChangedFiles { base, head } => {
                let r = range(base.as_str(), head.as_str());
                owned(&["diff", "--name-only", r.as_str()])
            },
            Query::Renames { base, head } => {
                let r = range(base.as_str(), head.as_str());
                owned(&["diff", "--find-renames=100%", "--name-status", r.as_str()])
            },
            Query::Grep { symbol } => owned(&["grep", "-n", "-w", "--", symbol.as_str()]),
            Query::Log { base, head } => {
                let r = range(base.as_str(), head.as_str());
                owned(
                    &[
                        "log",
                        "--format=%H%x00%(trailers:key=Co-Authored-By,valueonly)%x00",
                        r.as_str(),
                    ],
                )
            },
            Query::Marks { files } => {
                let mut args = owned(&["check-attr", "-z", "linguist-generated", "--"]);
                assert(texts(args@) =~= seq![
                    "check-attr"@,
                    "-z"@,
                    "linguist-generated"@,
                    "--"@,
                ]);
                crate::context::extend_texts(&mut args, files);
                args
            },
        };
        assert(texts(args@) =~= query_args(*self));
        args
    }
}

} // verus!
