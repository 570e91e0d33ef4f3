//! Added guards, and the dispatch that was there before and that they now sit in
//! front of.
//!
//! Every other question is about the path a change adds; this one is about what the
//! change quietly took over, which is not visible in the hunk at all. The added
//! lines are correct on their own terms, and the behaviour that stopped happening is
//! somewhere below them in the file.

use vstd::prelude::*;
use vstd::string::StringExecFns;
use crate::context::{new_side_start, new_start, truncate_texts, extend_texts};
use crate::context::tree::{extension, extension_of, Tree};
use crate::git::{hunk_models, Hunk, HunkModel};
use crate::text::chars::{lowercase, same};
use crate::text::number::{decimal, show_usize};
use crate::text::search::{contains, has_prefix, has_text, starts_with, trim_start_matches, without_prefixes};
use crate::text::split::{
    at_most, byte_len, join, joined, lines, lines_of, listed, owned, strs, texts, texts_push, trim,
    trim_start, trimmed, trimmed_start, trimmed_start_is_suffix, utf8_length,
};
use crate::text::words::{has_any_word, has_some_word};

pub mod laws;

verus! {

/// What stops or diverts control before whatever follows. Crude on purpose: the
/// cost of a false positive is one skipped candidate, since a guard with no
/// dispatch under it is dropped.
pub open spec fn interceptors() -> Seq<Seq<char>> {
    seq![
        "return"@,
        "continue"@,
        "break"@,
        "bail!"@,
        "raise"@,
        "throw"@,
        "next"@,
        "halt"@,
        "abort"@,
        "redirect_to"@,
        "goto"@,
    ]
}

/// What opens a declaration. A change that adds one adds new surface; it cannot have
/// got in front of anything that was already running.
pub open spec fn declarers() -> Seq<Seq<char>> {
    seq![
        "fn"@,
        "def"@,
        "class"@,
        "func"@,
        "struct"@,
        "enum"@,
        "trait"@,
        "impl"@,
        "interface"@,
        "module"@,
        "type"@,
        "const"@,
    ]
}

/// What dispatches: the thing a guard placed above it can shadow.
pub open spec fn dispatchers() -> Seq<Seq<char>> {
    seq!["match"@, "if"@, "elsif"@, "elif"@, "else"@, "when"@, "case"@, "switch"@]
}

/// Extensions of files that hold prose or data, where a search for keywords reads
/// paragraphs as control flow.
pub open spec fn prose_extensions() -> Seq<Seq<char>> {
    seq![
        "md"@,
        "markdown"@,
        "txt"@,
        "rst"@,
        "adoc"@,
        "org"@,
        "csv"@,
        "tsv"@,
        "json"@,
        "yaml"@,
        "yml"@,
        "toml"@,
        "lock"@,
        "ini"@,
        "cfg"@,
        "sql"@,
        "svg"@,
    ]
}

/// Whether the file at `path` holds code.
pub open spec fn holds_code(path: Seq<char>) -> bool {
    !prose_extensions().contains(lowercase(extension_of(path)))
}

/// How far a line is indented, in bytes.
pub open spec fn indentation(line: Seq<char>) -> int {
    utf8_length(line) - utf8_length(trimmed_start(line))
}

/// An added line, without plus signs and white space around it.
pub open spec fn bare(line: Seq<char>) -> Seq<char> {
    trimmed(without_prefixes(line, "+"@))
}

/// The lines that a hunk adds, bare, the blank ones left out.
pub open spec fn bare_lines(added: Seq<Seq<char>>) -> Seq<Seq<char>>
    decreases added.len(),
{
    if added.len() == 0 {
        Seq::empty()
    } else if bare(added.last()).len() == 0 {
        bare_lines(added.drop_last())
    } else {
        bare_lines(added.drop_last()).push(bare(added.last()))
    }
}

/// Whether a line stops or diverts control, and is no comment.
pub open spec fn intercepts(t: Seq<char>) -> bool {
    !has_prefix(t, "//"@) && !has_prefix(t, "#"@) && has_some_word(t, interceptors())
}

/// Whether one of the lines stops or diverts control.
pub open spec fn some_intercepts(ts: Seq<Seq<char>>) -> bool {
    exists|i: int| 0 <= i < ts.len() && intercepts(#[trigger] ts[i])
}

/// The first line, from `after` on, that reads `needle` but for the white space
/// around it.
pub open spec fn line_of(ls: Seq<Seq<char>>, needle: Seq<char>, after: int) -> Option<int>
    decreases ls.len() - after,
{
    if after < 0 || after >= ls.len() {
        None
    } else if trimmed(ls[after]) == needle {
        Some(after)
    } else {
        line_of(ls, needle, after + 1)
    }
}

/// Where the last of `ts` that is found stands, searched from `first` on.
pub open spec fn last_line(ls: Seq<Seq<char>>, ts: Seq<Seq<char>>, first: int) -> int
    decreases ts.len(),
{
    if ts.len() == 0 {
        first
    } else {
        match line_of(ls, ts.last(), first) {
            Some(i) => i,
            None => last_line(ls, ts.drop_last(), first),
        }
    }
}

/// The least indentation of those of `ts` that are found, searched from `first` on.
pub open spec fn least_indentation(ls: Seq<Seq<char>>, ts: Seq<Seq<char>>, first: int) -> Option<int>
    decreases ts.len(),
{
    if ts.len() == 0 {
        None
    } else {
        let least = least_indentation(ls, ts.drop_last(), first);
        match line_of(ls, ts.last(), first) {
            Some(i) => match least {
                Some(d) => Some(
                    if indentation(ls[i]) < d {
                        indentation(ls[i])
                    } else {
                        d
                    },
                ),
                None => Some(indentation(ls[i])),
            },
            None => least,
        }
    }
}

/// The level that the change was inserted at: the indentation of its outermost line.
/// What a guard shadows sits at that level; the line that returns is deeper, and
/// reading from it would stop at its own closing brace.
pub open spec fn floor_of(ls: Seq<Seq<char>>, ts: Seq<Seq<char>>, first: int) -> int {
    match least_indentation(ls, ts, first) {
        Some(d) => d,
        None => indentation(ls[first]),
    }
}

/// The first of `ts` that is found at the level `floor`.
pub open spec fn outermost(ls: Seq<Seq<char>>, ts: Seq<Seq<char>>, first: int, floor: int) -> Option<
    Seq<char>,
>
    decreases ts.len(),
{
    if ts.len() == 0 {
        None
    } else {
        match line_of(ls, ts[0], first) {
            Some(i) => if indentation(ls[i]) == floor {
                Some(ts[0])
            } else {
                outermost(ls, ts.skip(1), first, floor)
            },
            None => outermost(ls, ts.skip(1), first, floor),
        }
    }
}

/// Whether a line lies past the block that a change at level `floor` was inserted
/// into: further out, or a declaration at the same level.
pub open spec fn leaves_block(line: Seq<char>, floor: int) -> bool {
    indentation(line) < floor || (indentation(line) == floor && has_some_word(
        trimmed(line),
        declarers(),
    ))
}

/// Whether a line dispatches. The arrow is punctuation; the rest are words.
pub open spec fn dispatches(t: Seq<char>) -> bool {
    has_text(t, "=>"@) || has_some_word(t, dispatchers())
}

/// The lines from `i` up to `end` that dispatch, with their numbers, until the block
/// ends. Lines the change added are not what it shadowed.
pub open spec fn dispatch_below(
    ls: Seq<Seq<char>>,
    i: int,
    end: int,
    floor: int,
    ts: Seq<Seq<char>>,
) -> Seq<Seq<char>>
    decreases end - i,
{
    if i < 0 || i >= end || i >= ls.len() {
        Seq::empty()
    } else {
        let t = trimmed(ls[i]);
        if t.len() == 0 {
            dispatch_below(ls, i + 1, end, floor, ts)
        } else if leaves_block(ls[i], floor) {
            Seq::empty()
        } else if !ts.contains(t) && dispatches(t) {
            seq![decimal((i + 1) as nat) + ": "@ + t] + dispatch_below(ls, i + 1, end, floor, ts)
        } else {
            dispatch_below(ls, i + 1, end, floor, ts)
        }
    }
}

/// Lines set in by three blanks.
pub open spec fn set_in(ts: Seq<Seq<char>>) -> Seq<Seq<char>> {
    Seq::new(ts.len(), |i: int| "   "@ + ts[i])
}

/// How a guard is shown: where it stands, and at most six of its lines.
pub open spec fn guard_heading(file: Seq<char>, first: int, ts: Seq<Seq<char>>) -> Seq<char> {
    "# `"@ + file + ":"@ + decimal((first + 1) as nat) + "` runs before what follows it\n"@ + joined(
        set_in(at_most(ts, 6)),
        "\n"@,
    )
}

/// What the guard found at line `first` shadows: at most eight lines that dispatch,
/// within the eighty that follow the change.
pub open spec fn shadowed_lines(ls: Seq<Seq<char>>, ts: Seq<Seq<char>>, first: int) -> Seq<Seq<char>> {
    let last = last_line(ls, ts, first);
    at_most(dispatch_below(ls, last + 1, last + 81, floor_of(ls, ts, first), ts), 8)
}

/// What is said of a guard at line `first`: nothing where its outermost line opens a
/// declaration, which is a new function and no guard, and nothing where fewer than
/// two lines below it dispatch, since one is as likely its own else-branch.
pub open spec fn guard_report(
    file: Seq<char>,
    ls: Seq<Seq<char>>,
    ts: Seq<Seq<char>>,
    first: int,
) -> Seq<Seq<char>> {
    let head = match outermost(ls, ts, first, floor_of(ls, ts, first)) {
        Some(t) => t,
        None => ts[0],
    };
    let below = shadowed_lines(ls, ts, first);
    if has_some_word(head, declarers()) || below.len() < 2 {
        Seq::empty()
    } else {
        seq![guard_heading(file, first, ts)] + below
    }
}

/// Where a hunk landed in the file: the header's new-side start is the estimate, and
/// the first added line found from there on confirms it.
pub open spec fn landing(h: HunkModel, ls: Seq<Seq<char>>) -> Option<int> {
    match new_side_start(h.header, usize::MAX as nat) {
        Some(from) => line_of(ls, bare_lines(h.added)[0], if from > 0 { from - 1 } else { 0 }),
        None => None,
    }
}

/// What is said of a hunk, where the text of its file is `text`.
pub open spec fn hunk_report(h: HunkModel, text: Option<Seq<char>>) -> Seq<Seq<char>> {
    let ts = bare_lines(h.added);
    match text {
        Some(text) => if holds_code(h.file) && some_intercepts(ts) {
            match landing(h, lines_of(text)) {
                Some(first) => guard_report(h.file, lines_of(text), ts, first),
                None => Seq::empty(),
            }
        } else {
            Seq::empty()
        },
        None => Seq::empty(),
    }
}

/// What is said of a list of hunks, one after the other.
pub open spec fn hunk_reports(tree: Tree, hunks: Seq<HunkModel>) -> Seq<Seq<char>>
    decreases hunks.len(),
{
    if hunks.len() == 0 {
        Seq::empty()
    } else {
        hunk_reports(tree, hunks.drop_last()) + hunk_report(
            hunks.last(),
            tree.text_at(hunks.last().file),
        )
    }
}

// ---------------------------------------------------------------- finding them

proof fn utf8_length_of_suffix(s: Seq<char>, k: int)
    requires
        0 <= k <= s.len(),
    ensures
        utf8_length(s.skip(k)) <= utf8_length(s),
    decreases k,
{
    if k == 0 {
        assert(s.skip(0) =~= s);
    } else {
        utf8_length_of_suffix(s.drop_first(), k - 1);
        assert(s.drop_first().skip(k - 1) =~= s.skip(k));
    }
}

fn indent(line: &str) -> (r: usize)
    ensures
        r == indentation(line@),
{
    let rest = trim_start(line);
    proof {
        trimmed_start_is_suffix(line@);
        utf8_length_of_suffix(line@, line@.len() - rest@.len());
    }
    byte_len(line) - byte_len(rest.as_str())
}

fn is_prose(path: &str) -> (r: bool)
    ensures
        r == !holds_code(path@),
{
    let prose: [&str; 17] = [
        "md",
        "markdown",
        "txt",
        "rst",
        "adoc",
        "org",
        "csv",
        "tsv",
        "json",
        "yaml",
        "yml",
        "toml",
        "lock",
        "ini",
        "cfg",
        "sql",
        "svg",
    ];
    proof {
        assert(strs(prose@) =~= prose_extensions());
    }
    let ext = extension(path);
    let list = owned(&prose);
    listed(&list, ext.as_str().to_lowercase().as_str())
}

fn read_bare(added: &[String]) -> (r: Vec<String>)
    ensures
        texts(r@) == bare_lines(texts(added@)),
{
    broadcast use texts_push;

    let ghost all = texts(added@);
    let mut out: Vec<String> = Vec::new();
    let mut i: usize = 0;
    proof {
        assert(all.take(0) =~= Seq::empty());
        assert(texts(out@) =~= bare_lines(all.take(0)));
    }
    while i < added.len()
        invariant
            i <= added@.len(),
            all == texts(added@),
            texts(out@) == bare_lines(all.take(i as int)),
        decreases added@.len() - i,
    {
        let t = trim(trim_start_matches(added[i].as_str(), "+").as_str());
        proof {
            assert(all.take(i + 1).drop_last() =~= all.take(i as int));
            assert(all.take(i + 1).last() == added@[i as int]@);
        }
        if !t.as_str().is_empty() {
            out.push(t);
        }
        i += 1;
    }
    proof {
        assert(all.take(i as int) =~= all);
    }
    out
}

fn line_intercepts(t: &str) -> (r: bool)
    ensures
        r == intercepts(t@),
{
    let words: [&str; 11] = [
        "return",
        "continue",
        "break",
        "bail!",
        "raise",
        "throw",
        "next",
        "halt",
        "abort",
        "redirect_to",
        "goto",
    ];
    proof {
        assert(strs(words@) =~= interceptors());
        reveal_strlit("return");
        reveal_strlit("continue");
        reveal_strlit("break");
        reveal_strlit("bail!");
        reveal_strlit("raise");
        reveal_strlit("throw");
        reveal_strlit("next");
        reveal_strlit("halt");
        reveal_strlit("abort");
        reveal_strlit("redirect_to");
        reveal_strlit("goto");
    }
    !starts_with(t, "//") && !starts_with(t, "#") && has_any_word(t, &words)
}

fn declares(t: &str) -> (r: bool)
    ensures
        r == has_some_word(t@, declarers()),
{
    let words: [&str; 12] = [
        "fn",
        "def",
        "class",
        "func",
        "struct",
        "enum",
        "trait",
        "impl",
        "interface",
        "module",
        "type",
        "const",
    ];
    proof {
        assert(strs(words@) =~= declarers());
        reveal_strlit("fn");
        reveal_strlit("def");
        reveal_strlit("class");
        reveal_strlit("func");
        reveal_strlit("struct");
        reveal_strlit("enum");
        reveal_strlit("trait");
        reveal_strlit("impl");
        reveal_strlit("interface");
        reveal_strlit("module");
        reveal_strlit("type");
        reveal_strlit("const");
    }
    has_any_word(t, &words)
}

fn line_dispatches(t: &str) -> (r: bool)
    ensures
        r == dispatches(t@),
{
    let words: [&str; 8] = ["match", "if", "elsif", "elif", "else", "when", "case", "switch"];
    proof {
        assert(strs(words@) =~= dispatchers());
        reveal_strlit("match");
        reveal_strlit("if");
        reveal_strlit("elsif");
        reveal_strlit("elif");
        reveal_strlit("else");
        reveal_strlit("when");
        reveal_strlit("case");
        reveal_strlit("switch");
    }
    contains(t, "=>") || has_any_word(t, &words)
}

fn any_intercepts(ts: &[String]) -> (r: bool)
    ensures
        r == some_intercepts(texts(ts@)),
{
    let mut i: usize = 0;
    while i < ts.len()
        invariant
            i <= ts@.len(),
            forall|j: int| 0 <= j < i ==> !intercepts(#[trigger] texts(ts@)[j]),
        decreases ts@.len() - i,
    {
        if line_intercepts(ts[i].as_str()) {
            assert(intercepts(texts(ts@)[i as int]));
            return true;
        }
        i += 1;
    }
    false
}

fn find_line(ls: &[String], needle: &str, after: usize) -> (r: Option<usize>)
    ensures
        match r {
            Some(i) => after <= i < ls@.len() && line_of(texts(ls@), needle@, after as int) == Some(
                i as int,
            ),
            None => line_of(texts(ls@), needle@, after as int) is None,
        },
{
    let mut i: usize = after;
    while i < ls.len()
        invariant
            after <= i,
            line_of(texts(ls@), needle@, after as int) == line_of(texts(ls@), needle@, i as int),
        decreases ls@.len() - i,
    {
        if same(trim(ls[i].as_str()).as_str(), needle) {
            return Some(i);
        }
        i += 1;
    }
    None
}

fn find_last(ls: &[String], ts: &[String], first: usize) -> (r: usize)
    requires
        first < ls@.len(),
    ensures
        r == last_line(texts(ls@), texts(ts@), first as int),
        r < ls@.len(),
{
    let ghost all = texts(ts@);
    let mut n: usize = ts.len();
    proof {
        assert(all.take(n as int) =~= all);
    }
    while n > 0
        invariant
            n <= ts@.len(),
            first < ls@.len(),
            all == texts(ts@),
            last_line(texts(ls@), all, first as int) == last_line(
                texts(ls@),
                all.take(n as int),
                first as int,
            ),
        decreases n,
    {
        proof {
            assert(all.take(n as int).drop_last() =~= all.take(n - 1));
            assert(all.take(n as int).last() == ts@[n - 1]@);
        }
        if let Some(i) = find_line(ls, ts[n - 1].as_str(), first) {
            return i;
        }
        n -= 1;
    }
    first
}

fn find_floor(ls: &[String], ts: &[String], first: usize) -> (r: usize)
    requires
        first < ls@.len(),
    ensures
        r == floor_of(texts(ls@), texts(ts@), first as int),
{
    let ghost all = texts(ts@);
    let ghost lines = texts(ls@);
    let mut least: Option<usize> = None;
    let mut i: usize = 0;
    proof {
        assert(all.take(0) =~= Seq::empty());
    }
    while i < ts.len()
        invariant
            i <= ts@.len(),
            all == texts(ts@),
            lines == texts(ls@),
            match least {
                Some(d) => least_indentation(lines, all.take(i as int), first as int) == Some(
                    d as int,
                ),
                None => least_indentation(lines, all.take(i as int), first as int) is None,
            },
        decreases ts@.len() - i,
    {
        proof {
            assert(all.take(i + 1).drop_last() =~= all.take(i as int));
            assert(all.take(i + 1).last() == ts@[i as int]@);
        }
        if let Some(k) = find_line(ls, ts[i].as_str(), first) {
            let d: usize = indent(ls[k].as_str());
            assert(lines[k as int] == ls@[k as int]@);
            least = match least {
                Some(e) => if d < e {
                    Some(d)
                } else {
                    Some(e)
                },
                None => Some(d),
            };
        }
        i += 1;
    }
    proof {
        assert(all.take(i as int) =~= all);
        assert(lines[first as int] == ls@[first as int]@);
    }
    match least {
        Some(d) => d,
        None => indent(ls[first].as_str()),
    }
}

fn find_outermost(ls: &[String], ts: &[String], first: usize, floor: usize) -> (r: Option<usize>)
    ensures
        match r {
            Some(i) => i < ts@.len() && outermost(
                texts(ls@),
                texts(ts@),
                first as int,
                floor as int,
            ) == Some(ts@[i as int]@),
            None => outermost(texts(ls@), texts(ts@), first as int, floor as int) is None,
        },
{
    let ghost all = texts(ts@);
    let ghost lines = texts(ls@);
    let mut i: usize = 0;
    proof {
        assert(all.skip(0) =~= all);
    }
    while i < ts.len()
        invariant
            i <= ts@.len(),
            all == texts(ts@),
            lines == texts(ls@),
            outermost(lines, all, first as int, floor as int) == outermost(
                lines,
                all.skip(i as int),
                first as int,
                floor as int,
            ),
        decreases ts@.len() - i,
    {
        proof {
            assert(all.skip(i as int).skip(1) =~= all.skip(i + 1));
            assert(all.skip(i as int)[0] == ts@[i as int]@);
        }
        if let Some(k) = find_line(ls, ts[i].as_str(), first) {
            assert(lines[k as int] == ls@[k as int]@);
            if indent(ls[k].as_str()) == floor {
                return Some(i);
            }
        }
        i += 1;
    }
    None
}

fn collect_dispatch(ls: &[String], ts: &[String], last: usize, floor: usize) -> (r: Vec<String>)
    requires
        last < ls@.len(),
    ensures
        texts(r@) == at_most(
            dispatch_below(texts(ls@), last + 1, last + 81, floor as int, texts(ts@)),
            8,
        ),
{
    broadcast use texts_push;

    let ghost lines = texts(ls@);
    let ghost all = texts(ts@);
    let ghost end = last + 81;
    let ghost whole = dispatch_below(lines, last + 1, end, floor as int, all);
    let mut below: Vec<String> = Vec::new();
    let n: usize = ls.len();
    let mut i: usize = last + 1;
    proof {
        assert(texts(below@) + whole =~= whole);
    }
    while i < n && i - (last + 1) < 80
        invariant
            last + 1 <= i <= n == ls@.len(),
            lines == texts(ls@),
            all == texts(ts@),
            end == last + 81,
            whole == dispatch_below(lines, last + 1, end, floor as int, all),
            whole == texts(below@) + dispatch_below(lines, i as int, end, floor as int, all),
            below@.len() < 8,
        decreases ls@.len() - i,
    {
        let line = ls[i].as_str();
        let t = trim(line);
        assert(lines[i as int] == line@);
        let ghost rest = dispatch_below(lines, i + 1, end, floor as int, all);
        if !t.as_str().is_empty() {
            let depth: usize = indent(line);
            if depth < floor || (depth == floor && declares(t.as_str())) {
                proof {
                    assert(whole =~= texts(below@));
                    assert(texts(below@).len() == below@.len());
                }
                return below;
            }
            if !listed(ts, t.as_str()) && line_dispatches(t.as_str()) {
                let found = show_usize(i + 1).concat(": ").concat(t.as_str());
                proof {
                    let before = texts(below@);
                    assert(before + (seq![found@] + rest) =~= before.push(found@) + rest);
                }
                below.push(found);
                if below.len() == 8 {
                    proof {
                        assert(texts(below@).len() == 8);
                        assert(whole.take(8) =~= texts(below@));
                        if whole.len() == 8 {
                            assert(whole =~= texts(below@));
                        }
                    }
                    return below;
                }
            }
        }
        i += 1;
    }
    proof {
        assert(whole =~= texts(below@));
        assert(texts(below@).len() == below@.len());
    }
    below
}

fn write_heading(file: &str, first: usize, ts: &[String]) -> (r: String)
    requires
        first < usize::MAX,
    ensures
        r@ == guard_heading(file@, first as int, texts(ts@)),
{
    let ghost shown = at_most(texts(ts@), 6);
    let mut preview: Vec<String> = Vec::new();
    let mut i: usize = 0;
    while i < ts.len() && i < 6
        invariant
            i <= ts@.len(),
            i <= 6,
            preview@.len() == i,
            forall|j: int| 0 <= j < i ==> preview@[j]@ == "   "@ + ts@[j]@,
        decreases ts@.len() - i,
    {
        preview.push("   ".to_owned().concat(ts[i].as_str()));
        i += 1;
    }
    proof {
        assert(shown.len() == i);
        assert(texts(preview@) =~= set_in(shown));
    }
    "# `".to_owned().concat(file).concat(":").concat(show_usize(first + 1).as_str()).concat(
        "` runs before what follows it\n",
    ).concat(join(&preview, "\n").as_str())
}

fn report_guard(file: &str, ls: &[String], ts: &[String], first: usize) -> (r: Vec<String>)
    requires
        first < ls@.len(),
        ts@.len() > 0,
    ensures
        texts(r@) == guard_report(file@, texts(ls@), texts(ts@), first as int),
{
    broadcast use texts_push;

    let ghost lines = texts(ls@);
    let ghost all = texts(ts@);
    let mut out: Vec<String> = Vec::new();
    assert(texts(out@) =~= Seq::empty());
    let n: usize = ls.len();
    assert(first < n);
    let last: usize = find_last(ls, ts, first);
    let floor: usize = find_floor(ls, ts, first);
    let outer: usize = match find_outermost(ls, ts, first, floor) {
        Some(i) => i,
        None => 0,
    };
    assert(all[0] == ts@[0]@);
    if declares(ts[outer].as_str()) {
        return out;
    }
    let below = collect_dispatch(ls, ts, last, floor);
    assert(texts(below@).len() == below@.len());
    if below.len() < 2 {
        return out;
    }
    let heading = write_heading(file, first, ts);
    let ghost head = heading@;
    out.push(heading);
    extend_texts(&mut out, &below);
    assert(texts(out@) =~= seq![head] + texts(below@));
    out
}

fn report_hunk(h: &Hunk, tree: &Tree) -> (r: Vec<String>)
    ensures
        texts(r@) == hunk_report(h@, tree.text_at(h@.file)),
{
    let nothing: Vec<String> = Vec::new();
    assert(texts(nothing@) =~= Seq::empty());
    if is_prose(h.file.as_str()) {
        return nothing;
    }
    let text = match tree.read(h.file.as_str()) {
        Some(text) => text,
        None => {
            return nothing;
        },
    };
    let ls = lines(text.as_str());
    let ts = read_bare(&h.added);
    if !any_intercepts(&ts) {
        return nothing;
    }
    assert(texts(ts@).len() == ts@.len());
    assert(ts@.len() > 0);
    assert(texts(ts@)[0] == ts@[0]@);
    let from: usize = match new_start(h.header.as_str()) {
        Some(n) => n,
        None => {
            return nothing;
        },
    };
    let start: usize = if from > 0 { from - 1 } else { 0 };
    match find_line(&ls, ts[0].as_str(), start) {
        Some(first) => report_guard(h.file.as_str(), &ls, &ts, first),
        None => nothing,
    }
}

/// Added guards, each with the dispatch that it now sits in front of, at most sixty
/// lines in all. `tree` holds the files after the change.
pub fn shadowed(tree: &Tree, hunks: &[Hunk]) -> (r: Vec<String>)
    ensures
        texts(r@) == at_most(hunk_reports(*tree, hunk_models(hunks@)), 60),
{
    let ghost hs = hunk_models(hunks@);
    let mut out: Vec<String> = Vec::new();
    let mut i: usize = 0;
    proof {
        assert(hs.take(0) =~= Seq::empty());
        assert(texts(out@) =~= hunk_reports(*tree, hs.take(0)));
    }
    while i < hunks.len()
        invariant
            i <= hunks@.len(),
            hs == hunk_models(hunks@),
            texts(out@) == hunk_reports(*tree, hs.take(i as int)),
        decreases hunks@.len() - i,
    {
        let more = report_hunk(&hunks[i], tree);
        proof {
            assert(hs.take(i + 1).drop_last() =~= hs.take(i as int));
            assert(hs.take(i + 1).last() == hunks@[i as int]@);
        }
        extend_texts(&mut out, &more);
        i += 1;
    }
    proof {
        assert(hs.take(i as int) =~= hs);
    }
    truncate_texts(&mut out, 60);
    out
}

/// Added code that only computes cannot shadow anything.
pub proof fn a_change_that_intercepts_nothing_shadows_nothing(h: HunkModel, text: Option<Seq<char>>)
    requires
        !some_intercepts(bare_lines(h.added)),
    ensures
        hunk_report(h, text).len() == 0,
{
}

/// Prose is not control flow.
pub proof fn prose_shadows_nothing(h: HunkModel, text: Option<Seq<char>>)
    requires
        !holds_code(h.file),
    ensures
        hunk_report(h, text).len() == 0,
{
}

/// What is reported below a guard stands behind the change, is none of the lines the
/// change added, is not further out than the level the change was inserted at, and
/// dispatches. Each entry is a line of the file with its number.
pub proof fn shadowed_lines_were_there_before(
    ls: Seq<Seq<char>>,
    ts: Seq<Seq<char>>,
    first: int,
    k: int,
) -> (i: int)
    requires
        0 <= first < ls.len(),
        0 <= k < shadowed_lines(ls, ts, first).len(),
    ensures
        last_line(ls, ts, first) < i < ls.len(),
        shadowed_lines(ls, ts, first)[k] == decimal((i + 1) as nat) + ": "@ + trimmed(ls[i]),
        !ts.contains(trimmed(ls[i])),
        dispatches(trimmed(ls[i])),
        indentation(ls[i]) >= floor_of(ls, ts, first),
{
    let last = last_line(ls, ts, first);
    last_line_in_range(ls, ts, first);
    dispatch_below_meaning(ls, last + 1, last + 81, floor_of(ls, ts, first), ts, k)
}

proof fn last_line_in_range(ls: Seq<Seq<char>>, ts: Seq<Seq<char>>, first: int)
    requires
        0 <= first < ls.len(),
    ensures
        first <= last_line(ls, ts, first) < ls.len(),
    decreases ts.len(),
{
    if ts.len() > 0 {
        line_of_in_range(ls, ts.last(), first);
        last_line_in_range(ls, ts.drop_last(), first);
    }
}

proof fn line_of_in_range(ls: Seq<Seq<char>>, needle: Seq<char>, after: int)
    requires
        0 <= after,
    ensures
        line_of(ls, needle, after) is Some ==> after <= line_of(ls, needle, after)->0 < ls.len(),
    decreases ls.len() - after,
{
    if after < ls.len() {
        line_of_in_range(ls, needle, after + 1);
    }
}

proof fn dispatch_below_meaning(
    ls: Seq<Seq<char>>,
    i: int,
    end: int,
    floor: int,
    ts: Seq<Seq<char>>,
    k: int,
) -> (n: int)
    requires
        0 <= i,
        0 <= k < dispatch_below(ls, i, end, floor, ts).len(),
    ensures
        i <= n < ls.len(),
        dispatch_below(ls, i, end, floor, ts)[k] == decimal((n + 1) as nat) + ": "@ + trimmed(ls[n]),
        !ts.contains(trimmed(ls[n])),
        dispatches(trimmed(ls[n])),
        indentation(ls[n]) >= floor,
    decreases end - i,
{
    let t = trimmed(ls[i]);
    let rest = dispatch_below(ls, i + 1, end, floor, ts);
    if t.len() > 0 && !leaves_block(ls[i], floor) && !ts.contains(t) && dispatches(t) {
        if k == 0 {
            i
        } else {
            assert(dispatch_below(ls, i, end, floor, ts)[k] == rest[k - 1]);
            dispatch_below_meaning(ls, i + 1, end, floor, ts, k - 1)
        }
    } else {
        dispatch_below_meaning(ls, i + 1, end, floor, ts, k)
    }
}

} // verus!
