//! The diff as the screen shows it.

use vstd::prelude::*;
use crate::context::new_side_start;
use crate::git::{file_named, hunk_models, opens_file, opens_hunk, parse_diff, Hunk, HunkModel, read_file_name};
use crate::llm::hunk_start;
use crate::text::chars::same;
use crate::text::search::{has_prefix, starts_with, strip_prefix};
use crate::text::split::{lines, lines_of, texts};

verus! {

/// One row of the diff, with everything the pane needs to place it.
#[derive(Debug)]
pub struct DiffLine {
    pub text: String,
    pub ai: bool,
    /// New-side line number. Removed lines and headers have none: the questions cite
    /// new-side positions.
    pub lineno: Option<u32>,
    pub is_hunk_header: bool,
    pub is_file_header: bool,
}

/// A row of the diff as its text and marks.
pub struct DiffLineModel {
    pub text: Seq<char>,
    pub ai: bool,
    pub lineno: Option<u32>,
    pub is_hunk_header: bool,
    pub is_file_header: bool,
}

impl View for DiffLine {
    type V = DiffLineModel;

    open spec fn view(&self) -> DiffLineModel {
        DiffLineModel {
            text: self.text@,
            ai: self.ai,
            lineno: self.lineno,
            is_hunk_header: self.is_hunk_header,
            is_file_header: self.is_file_header,
        }
    }
}

/// The texts and marks of a list of rows.
pub open spec fn row_models(rows: Seq<DiffLine>) -> Seq<DiffLineModel> {
    Seq::new(rows.len(), |i: int| rows[i]@)
}

/// Whether one of the hunks stands in this file under this header. The header alone does
/// not tell: the same one recurs across files.
pub open spec fn is_marked(hunks: Seq<HunkModel>, file: Seq<char>, header: Seq<char>) -> bool {
    exists|i: int| 0 <= i < hunks.len() && (#[trigger] hunks[i]).file == file && hunks[i].header == header
}

/// The new-side start of a hunk header as a line number.
pub open spec fn start_number(header: Seq<char>) -> Option<u32> {
    match new_side_start(header, u32::MAX as nat) {
        Some(n) => Some(n as u32),
        None => None,
    }
}

/// The line number that follows `n`.
pub open spec fn next_number(n: u32) -> Option<u32> {
    if n < u32::MAX {
        Some((n + 1) as u32)
    } else {
        None
    }
}

/// The rows of a diff from here on, where `file` is the file it is about so far, `ai`
/// says whether the lines so far stand in a marked hunk, and `number` is the new-side
/// number of the next line that has one, which there is only inside a hunk: what stands
/// before the first hunk of a file is metadata. Removed lines have none; context and
/// additions do.
pub open spec fn view_of(
    ls: Seq<Seq<char>>,
    hunks: Seq<HunkModel>,
    file: Seq<char>,
    ai: bool,
    number: Option<u32>,
) -> Seq<DiffLineModel>
    decreases ls.len(),
{
    if ls.len() == 0 {
        Seq::empty()
    } else {
        let line = ls[0];
        let rest = ls.skip(1);
        let row = DiffLineModel {
            text: line,
            ai,
            lineno: None,
            is_hunk_header: false,
            is_file_header: false,
        };
        if opens_file(line) {
            seq![DiffLineModel { ai: false, is_file_header: true, ..row }] + view_of(
                rest,
                hunks,
                file_named(line),
                false,
                None,
            )
        } else if opens_hunk(line) {
            let marked = is_marked(hunks, file, line);
            seq![DiffLineModel { ai: marked, is_hunk_header: true, ..row }] + view_of(
                rest,
                hunks,
                file,
                marked,
                start_number(line),
            )
        } else if number is None || has_prefix(line, "-"@) {
            seq![row] + view_of(rest, hunks, file, ai, number)
        } else {
            seq![DiffLineModel { lineno: number, ..row }] + view_of(
                rest,
                hunks,
                file,
                ai,
                next_number(number->0),
            )
        }
    }
}

/// The rows of a diff, marked where they stand in one of the hunks.
pub open spec fn diff_view(diff: Seq<char>, hunks: Seq<HunkModel>) -> Seq<DiffLineModel> {
    view_of(lines_of(diff), hunks, Seq::empty(), false, None)
}

/// Every line of the diff is kept, in order, and nothing is added.
pub proof fn every_diff_line_is_kept(diff: Seq<char>, hunks: Seq<HunkModel>)
    ensures
        diff_view(diff, hunks).len() == lines_of(diff).len(),
        forall|i: int|
            0 <= i < lines_of(diff).len() ==> (#[trigger] diff_view(diff, hunks)[i]).text
                == lines_of(diff)[i],
{
    view_keeps_lines(lines_of(diff), hunks, Seq::empty(), false, None);
}

proof fn view_keeps_lines(
    ls: Seq<Seq<char>>,
    hunks: Seq<HunkModel>,
    file: Seq<char>,
    ai: bool,
    number: Option<u32>,
)
    ensures
        view_of(ls, hunks, file, ai, number).len() == ls.len(),
        forall|i: int|
            0 <= i < ls.len() ==> (#[trigger] view_of(ls, hunks, file, ai, number)[i]).text == ls[i],
    decreases ls.len(),
{
    if ls.len() > 0 {
        let line = ls[0];
        let rest = ls.skip(1);
        let v = view_of(ls, hunks, file, ai, number);
        let tail = if opens_file(line) {
            view_keeps_lines(rest, hunks, file_named(line), false, None);
            view_of(rest, hunks, file_named(line), false, None)
        } else if opens_hunk(line) {
            view_keeps_lines(rest, hunks, file, is_marked(hunks, file, line), start_number(line));
            view_of(rest, hunks, file, is_marked(hunks, file, line), start_number(line))
        } else if number is None || has_prefix(line, "-"@) {
            view_keeps_lines(rest, hunks, file, ai, number);
            view_of(rest, hunks, file, ai, number)
        } else {
            view_keeps_lines(rest, hunks, file, ai, next_number(number->0));
            view_of(rest, hunks, file, ai, next_number(number->0))
        };
        assert(v =~= seq![v[0]] + tail);
        assert forall|i: int| 0 <= i < ls.len() implies (#[trigger] v[i]).text == ls[i] by {
            if i > 0 {
                assert(v[i] == tail[i - 1]);
                assert(rest[i - 1] == ls[i]);
            }
        }
    }
}

/// Whether the row at `i` stands in a hunk: a hunk header comes before it, with no file
/// header in between.
pub open spec fn stands_in_hunk(rows: Seq<DiffLineModel>, i: int) -> bool {
    exists|j: int|
        0 <= j < i && (#[trigger] rows[j]).is_hunk_header && forall|k: int|
            j < k <= i ==> !(#[trigger] rows[k]).is_file_header
}

/// Removed lines and headers carry no number, neither those of files and hunks nor what
/// stands between a file's and its first hunk's.
pub proof fn headers_and_removals_have_no_number(diff: Seq<char>, hunks: Seq<HunkModel>, i: int)
    requires
        0 <= i < diff_view(diff, hunks).len(),
        diff_view(diff, hunks)[i].lineno is Some,
    ensures
        !diff_view(diff, hunks)[i].is_file_header,
        !diff_view(diff, hunks)[i].is_hunk_header,
        !has_prefix(diff_view(diff, hunks)[i].text, "-"@),
        stands_in_hunk(diff_view(diff, hunks), i),
{
    numbered_rows_are_content(lines_of(diff), hunks, Seq::empty(), false, None, i);
}

proof fn numbered_rows_are_content(
    ls: Seq<Seq<char>>,
    hunks: Seq<HunkModel>,
    file: Seq<char>,
    ai: bool,
    number: Option<u32>,
    i: int,
)
    requires
        0 <= i < view_of(ls, hunks, file, ai, number).len(),
        view_of(ls, hunks, file, ai, number)[i].lineno is Some,
    ensures
        ({
            let rows = view_of(ls, hunks, file, ai, number);
            &&& !rows[i].is_file_header
            &&& !rows[i].is_hunk_header
            &&& !has_prefix(rows[i].text, "-"@)
            &&& stands_in_hunk(rows, i) || (number is Some && forall|k: int|
                0 <= k <= i ==> !(#[trigger] rows[k]).is_file_header)
        }),
    decreases ls.len(),
{
    let line = ls[0];
    let rest = ls.skip(1);
    let v = view_of(ls, hunks, file, ai, number);
    if i > 0 {
        let tail = if opens_file(line) {
            numbered_tail(v, view_of(rest, hunks, file_named(line), false, None));
            numbered_rows_are_content(rest, hunks, file_named(line), false, None, i - 1);
            view_of(rest, hunks, file_named(line), false, None)
        } else if opens_hunk(line) {
            let marked = is_marked(hunks, file, line);
            numbered_tail(v, view_of(rest, hunks, file, marked, start_number(line)));
            numbered_rows_are_content(rest, hunks, file, marked, start_number(line), i - 1);
            view_of(rest, hunks, file, marked, start_number(line))
        } else if number is None || has_prefix(line, "-"@) {
            numbered_tail(v, view_of(rest, hunks, file, ai, number));
            numbered_rows_are_content(rest, hunks, file, ai, number, i - 1);
            view_of(rest, hunks, file, ai, number)
        } else {
            numbered_tail(v, view_of(rest, hunks, file, ai, next_number(number->0)));
            numbered_rows_are_content(rest, hunks, file, ai, next_number(number->0), i - 1);
            view_of(rest, hunks, file, ai, next_number(number->0))
        };
        if stands_in_hunk(tail, i - 1) {
            let j = choose|j: int|
                0 <= j < i - 1 && (#[trigger] tail[j]).is_hunk_header && forall|k: int|
                    j < k <= i - 1 ==> !(#[trigger] tail[k]).is_file_header;
            assert(v[j + 1] == tail[j]);
            assert forall|k: int| j + 1 < k <= i implies !(#[trigger] v[k]).is_file_header by {
                assert(v[k] == tail[k - 1]);
            }
            assert(stands_in_hunk(v, i));
        } else {
            assert forall|k: int| 1 <= k <= i implies !(#[trigger] v[k]).is_file_header by {
                assert(v[k] == tail[k - 1]);
            }
            if opens_hunk(line) {
                assert(v[0].is_hunk_header);
                assert(stands_in_hunk(v, i));
            }
        }
    }
}

proof fn numbered_tail(v: Seq<DiffLineModel>, tail: Seq<DiffLineModel>)
    requires
        v.len() > 0,
        v == seq![v[0]] + tail,
    ensures
        v.len() == tail.len() + 1,
        forall|k: int| 1 <= k < v.len() ==> #[trigger] v[k] == tail[k - 1],
{
}

fn hunk_is_marked(hunks: &[Hunk], file: &str, header: &str) -> (r: bool)
    ensures
        r == is_marked(hunk_models(hunks@), file@, header@),
{
    let ghost hs = hunk_models(hunks@);
    let mut i: usize = 0;
    while i < hunks.len()
        invariant
            i <= hunks@.len(),
            hs == hunk_models(hunks@),
            forall|j: int| 0 <= j < i ==> !((#[trigger] hs[j]).file == file@ && hs[j].header == header@),
        decreases hunks@.len() - i,
    {
        assert(hs[i as int] == hunks@[i as int]@);
        if same(hunks[i].file.as_str(), file) && same(hunks[i].header.as_str(), header) {
            return true;
        }
        i += 1;
    }
    false
}

/// Marks each line of a diff with whether its hunk is the assistant's, and numbers the
/// lines of the new side.
pub fn build_diff_view(diff: &str, ai_hunks: &[Hunk]) -> (r: Vec<DiffLine>)
    ensures
        row_models(r@) == diff_view(diff@, hunk_models(ai_hunks@)),
{
    let all = lines(diff);
    let ghost ls = texts(all@);
    let ghost hs = hunk_models(ai_hunks@);
    let ghost whole = diff_view(diff@, hs);
    let mut out: Vec<DiffLine> = Vec::new();
    let mut file = String::new();
    let mut ai = false;
    let mut number: Option<u32> = None;
    let mut i: usize = 0;
    proof {
        assert(ls.skip(0) =~= ls);
        assert(row_models(out@) + whole =~= whole);
    }
    while i < all.len()
        invariant
            i <= all@.len(),
            ls == texts(all@),
            hs == hunk_models(ai_hunks@),
            whole == row_models(out@) + view_of(ls.skip(i as int), hs, file@, ai, number),
        decreases all@.len() - i,
    {
        let line = all[i].as_str();
        let ghost here = view_of(ls.skip(i as int), hs, file@, ai, number);
        proof {
            assert(ls.skip(i as int).skip(1) =~= ls.skip(i + 1));
            assert(ls.skip(i as int)[0] == line@);
        }
        let mut row = DiffLine {
            text: line.to_owned(),
            ai,
            lineno: None,
            is_hunk_header: false,
            is_file_header: false,
        };
        if let Some(names) = strip_prefix(line, "diff --git ") {
            ai = false;
            number = None;
            file = read_file_name(names.as_str());
            row.ai = false;
            row.is_file_header = true;
        } else if starts_with(line, "@@") {
            ai = hunk_is_marked(ai_hunks, file.as_str(), line);
            number = hunk_start(line);
            row.ai = ai;
            row.is_hunk_header = true;
        } else if let Some(n) = number {
            if !starts_with(line, "-") {
                row.lineno = Some(n);
                number = if n < u32::MAX {
                    Some(n + 1)
                } else {
                    None
                };
            }
        }
        proof {
            let before = row_models(out@);
            let rest = view_of(ls.skip(i + 1), hs, file@, ai, number);
            assert(here =~= seq![row@] + rest);
            assert(before + here =~= before.push(row@) + rest);
            assert(row_models(out@.push(row)) =~= before.push(row@));
        }
        out.push(row);
        i += 1;
    }
    proof {
        assert(whole =~= row_models(out@));
    }
    out
}

/// The hunks at these places, the places out of range left out.
pub open spec fn hunks_at(hunks: Seq<HunkModel>, places: Seq<usize>) -> Seq<HunkModel>
    decreases places.len(),
{
    if places.len() == 0 {
        Seq::empty()
    } else if places.last() < hunks.len() {
        hunks_at(hunks, places.drop_last()).push(hunks[places.last() as int])
    } else {
        hunks_at(hunks, places.drop_last())
    }
}

/// A diff view that marks the hunks at these places.
pub fn build_diff_view_for_test(diff: &str, ai_hunk_indexes: &[usize]) -> (r: Vec<DiffLine>)
    ensures
        row_models(r@) == diff_view(
            diff@,
            hunks_at(crate::git::hunks_of(diff@), ai_hunk_indexes@),
        ),
{
    let hunks = parse_diff(diff);
    let ghost hs = hunk_models(hunks@);
    let ghost places = ai_hunk_indexes@;
    let mut ai: Vec<Hunk> = Vec::new();
    let mut i: usize = 0;
    proof {
        assert(places.take(0) =~= Seq::empty());
        assert(hunk_models(ai@) =~= Seq::empty());
    }
    while i < ai_hunk_indexes.len()
        invariant
            i <= ai_hunk_indexes@.len(),
            places == ai_hunk_indexes@,
            hs == hunk_models(hunks@),
            hunk_models(ai@) == hunks_at(hs, places.take(i as int)),
        decreases ai_hunk_indexes@.len() - i,
    {
        let place: usize = ai_hunk_indexes[i];
        proof {
            assert(places.take(i + 1).drop_last() =~= places.take(i as int));
        }
        if place < hunks.len() {
            let h = hunks[place].clone();
            proof {
                crate::git::hunk_models_push(ai@, h);
            }
            ai.push(h);
        }
        i += 1;
    }
    proof {
        assert(places.take(i as int) =~= places);
    }
    build_diff_view(diff, &ai)
}

} // verus!
