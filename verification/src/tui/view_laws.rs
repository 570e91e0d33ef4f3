//! What holds of what is shown and written, whatever the diff and the question.

use vstd::prelude::*;
use crate::context::new_side_start;
use crate::dash::RowModel;
use crate::db::QuestionModel;
use crate::git::{file_named, HunkModel};
use crate::llm::{file_tail, Label};
use crate::text::number::decimal;
use crate::text::search::has_prefix;
use crate::text::split::{joined, lines_of, trimmed, words_of};
use crate::tui::app::{AppModel, SlotModel};
use crate::tui::comment::{comment_lines, with_word, without_block, wrapped, written};
use crate::tui::dash::{cells_of, listing_text, shortened, waiting};
use crate::tui::diff::{diff_view, hunks_at, view_of};
use crate::tui::header::{answer_block, dispute_block, ended, hint_block};
use crate::tui::quiz::{
    answer_text, hint_lines, line_tone, note_lines, pane_rows, pane_title, question_lines,
    question_title, row_of, verdict_lines, Look, PaneLineModel, Tone,
};

verus! {

// ---------------------------------------------------------------- the diff

/// Whether a line of a diff starts a file.
pub open spec fn starts_file(line: Seq<char>) -> bool {
    has_prefix(line, "diff --git "@)
}

/// Whether a line of a diff starts a hunk or a file.
pub open spec fn is_heading(line: Seq<char>) -> bool {
    starts_file(line) || has_prefix(line, "@@"@)
}

/// The lines that the file has after the change, of a stretch of a hunk's body.
pub open spec fn lasting(ls: Seq<Seq<char>>) -> nat {
    ls.filter(|l: Seq<char>| !has_prefix(l, "-"@)).len()
}

/// A row of a diff says what its line is. The line of a hunk is marked exactly where one of the
/// hunks in scope has its header and its file, each row of it too, and its rows are numbered from
/// the start in the header on, the removed ones passed over.
pub proof fn what_a_row_of_a_hunk_says(
    diff: Seq<char>,
    hunks: Seq<HunkModel>,
    f: int,
    h: int,
    i: int,
)
    requires
        0 <= f < h <= i < lines_of(diff).len(),
        starts_file(lines_of(diff)[f]),
        forall|j: int| f < j <= i ==> !starts_file(#[trigger] lines_of(diff)[j]),
        is_heading(lines_of(diff)[h]),
        forall|j: int| h < j <= i ==> !is_heading(#[trigger] lines_of(diff)[j]),
        new_side_start(lines_of(diff)[h], u32::MAX as nat) matches Some(start) ==> start + i - h
            <= u32::MAX,
    ensures
        ({
            let ls = lines_of(diff);
            let row = diff_view(diff, hunks)[i];
            let name = file_named(ls[f]);
            &&& row.ai <==> exists|k: int|
                0 <= k < hunks.len() && (#[trigger] hunks[k]).file == name && hunks[k].header
                    == ls[h]
            &&& !row.is_file_header
            &&& row.is_hunk_header <==> i == h
            &&& i == h || has_prefix(ls[i], "-"@) ==> row.lineno is None
            &&& i > h && !has_prefix(ls[i], "-"@) ==> match new_side_start(ls[h], u32::MAX as nat) {
                Some(start) => row.lineno == Some(
                    (start + lasting(ls.subrange(h + 1, i))) as u32,
                ),
                None => row.lineno is None,
            }
        }),
{
    let ls = lines_of(diff);
    let none = Seq::<char>::empty();
    crate::tui::diff::every_diff_line_is_kept(diff, hunks);
    rows_from_a_file(ls, hunks, none, false, None, f);
    let at_file = ls.skip(f + 1);
    let name = file_named(ls[f]);
    assert forall|j: int| 0 <= j <= h - f - 1 implies !starts_file(#[trigger] at_file[j]) by {
        assert(at_file[j] == ls[f + 1 + j]);
    }
    assert(at_file[h - f - 1] == ls[h]);
    rows_from_a_hunk(at_file, hunks, name, false, None, h - f - 1);
    let at_hunk = ls.skip(h + 1);
    assert(at_file.skip(h - f) =~= at_hunk);
    let marked = crate::tui::diff::is_marked(hunks, name, ls[h]);
    let number = crate::tui::diff::start_number(ls[h]);
    let all = diff_view(diff, hunks);
    let of_file = view_of(at_file, hunks, name, false, None);
    let of_hunk = view_of(at_hunk, hunks, name, marked, number);
    view_length(at_file, hunks, name, false, None);
    view_length(at_hunk, hunks, name, marked, number);
    if i == h {
        assert(all[i] == of_file[h - f - 1]);
    } else {
        assert(all[i] == of_file[i - f - 1]);
        assert(of_file[i - f - 1] == of_hunk[i - h - 1]);
        assert forall|j: int| 0 <= j <= i - h - 1 implies !is_heading(#[trigger] at_hunk[j]) by {
            assert(at_hunk[j] == ls[h + 1 + j]);
        }
        rows_of_a_body(at_hunk, hunks, name, marked, number, i - h - 1);
        assert(at_hunk.take(i - h - 1) =~= ls.subrange(h + 1, i));
        assert(at_hunk[i - h - 1] == ls[i]);
    }
}

proof fn view_length(
    ls: Seq<Seq<char>>,
    hunks: Seq<HunkModel>,
    file: Seq<char>,
    ai: bool,
    number: Option<u32>,
)
    ensures
        view_of(ls, hunks, file, ai, number).len() == ls.len(),
    decreases ls.len(),
{
    if ls.len() > 0 {
        let line = ls[0];
        let rest = ls.skip(1);
        view_length(rest, hunks, file_named(line), false, None);
        view_length(
            rest,
            hunks,
            file,
            crate::tui::diff::is_marked(hunks, file, line),
            crate::tui::diff::start_number(line),
        );
        view_length(rest, hunks, file, ai, number);
        if number is Some {
            view_length(rest, hunks, file, ai, crate::tui::diff::next_number(number->0));
        }
    }
}

/// The rows behind a line that starts a file do not depend on what came before it.
proof fn rows_from_a_file(
    ls: Seq<Seq<char>>,
    hunks: Seq<HunkModel>,
    file: Seq<char>,
    ai: bool,
    number: Option<u32>,
    f: int,
)
    requires
        0 <= f < ls.len(),
        starts_file(ls[f]),
    ensures
        ({
            let v = view_of(ls, hunks, file, ai, number);
            &&& v.len() == ls.len()
            &&& !v[f].ai && v[f].is_file_header && !v[f].is_hunk_header && v[f].lineno is None
            &&& v.skip(f + 1) == view_of(ls.skip(f + 1), hunks, file_named(ls[f]), false, None)
        }),
    decreases f,
{
    view_length(ls, hunks, file, ai, number);
    let v = view_of(ls, hunks, file, ai, number);
    let rest = ls.skip(1);
    if f == 0 {
        assert(v.skip(1) =~= view_of(rest, hunks, file_named(ls[0]), false, None));
    } else {
        let line = ls[0];
        assert(rest[f - 1] == ls[f]);
        assert(rest.skip(f) =~= ls.skip(f + 1));
        let (file2, ai2, number2) = after_line(line, hunks, file, ai, number);
        rows_from_a_file(rest, hunks, file2, ai2, number2, f - 1);
        let w = view_of(rest, hunks, file2, ai2, number2);
        assert(v.skip(1) =~= w);
        assert(v[f] == v.skip(1)[f - 1]);
        assert(v.skip(f + 1) =~= w.skip(f));
    }
}

/// What holds behind a line: the file, whether its rows are marked, and the next number.
spec fn after_line(
    line: Seq<char>,
    hunks: Seq<HunkModel>,
    file: Seq<char>,
    ai: bool,
    number: Option<u32>,
) -> (Seq<char>, bool, Option<u32>) {
    if starts_file(line) {
        (file_named(line), false, None)
    } else if is_heading(line) {
        (
            file,
            crate::tui::diff::is_marked(hunks, file, line),
            crate::tui::diff::start_number(line),
        )
    } else if number is None || has_prefix(line, "-"@) {
        (file, ai, number)
    } else {
        (file, ai, crate::tui::diff::next_number(number->0))
    }
}

proof fn rows_from_a_hunk(
    ls: Seq<Seq<char>>,
    hunks: Seq<HunkModel>,
    file: Seq<char>,
    ai: bool,
    number: Option<u32>,
    h: int,
)
    requires
        0 <= h < ls.len(),
        forall|j: int| 0 <= j <= h ==> !starts_file(#[trigger] ls[j]),
        is_heading(ls[h]),
    ensures
        ({
            let v = view_of(ls, hunks, file, ai, number);
            let marked = crate::tui::diff::is_marked(hunks, file, ls[h]);
            &&& v.len() == ls.len()
            &&& v[h].ai == marked && !v[h].is_file_header && v[h].is_hunk_header && v[h].lineno
                is None
            &&& v.skip(h + 1) == view_of(
                ls.skip(h + 1),
                hunks,
                file,
                marked,
                crate::tui::diff::start_number(ls[h]),
            )
        }),
    decreases h,
{
    view_length(ls, hunks, file, ai, number);
    let v = view_of(ls, hunks, file, ai, number);
    let rest = ls.skip(1);
    assert(!starts_file(ls[0]));
    let (file2, ai2, number2) = after_line(ls[0], hunks, file, ai, number);
    let w = view_of(rest, hunks, file2, ai2, number2);
    assert(v.skip(1) =~= w);
    if h > 0 {
        assert forall|j: int| 0 <= j <= h - 1 implies !starts_file(#[trigger] rest[j]) by {
            assert(rest[j] == ls[j + 1]);
        }
        assert(rest[h - 1] == ls[h]);
        assert(rest.skip(h) =~= ls.skip(h + 1));
        rows_from_a_hunk(rest, hunks, file2, ai2, number2, h - 1);
        assert(v[h] == v.skip(1)[h - 1]);
        assert(v.skip(h + 1) =~= w.skip(h));
    }
}

proof fn rows_of_a_body(
    ls: Seq<Seq<char>>,
    hunks: Seq<HunkModel>,
    file: Seq<char>,
    ai: bool,
    number: Option<u32>,
    i: int,
)
    requires
        0 <= i < ls.len(),
        forall|j: int| 0 <= j <= i ==> !is_heading(#[trigger] ls[j]),
        number matches Some(n) ==> n + i < u32::MAX,
    ensures
        ({
            let row = view_of(ls, hunks, file, ai, number)[i];
            &&& row.ai == ai && !row.is_file_header && !row.is_hunk_header
            &&& has_prefix(ls[i], "-"@) ==> row.lineno is None
            &&& !has_prefix(ls[i], "-"@) ==> match number {
                Some(n) => row.lineno == Some((n + lasting(ls.take(i))) as u32),
                None => row.lineno is None,
            }
        }),
    decreases i,
{
    reveal(Seq::filter);
    view_length(ls, hunks, file, ai, number);
    let v = view_of(ls, hunks, file, ai, number);
    let rest = ls.skip(1);
    assert(!is_heading(ls[0]));
    let p = |l: Seq<char>| !has_prefix(l, "-"@);
    if i == 0 {
        assert(ls.take(0) =~= Seq::<Seq<char>>::empty());
    } else {
        let (file2, ai2, number2) = after_line(ls[0], hunks, file, ai, number);
        let w = view_of(rest, hunks, file2, ai2, number2);
        assert(v.skip(1) =~= w);
        assert(v[i] == v.skip(1)[i - 1]);
        assert forall|j: int| 0 <= j <= i - 1 implies !is_heading(#[trigger] rest[j]) by {
            assert(rest[j] == ls[j + 1]);
        }
        rows_of_a_body(rest, hunks, file2, ai2, number2, i - 1);
        assert(rest[i - 1] == ls[i]);
        let front = seq![ls[0]];
        assert(ls.take(i) =~= front + rest.take(i - 1));
        Seq::filter_distributes_over_add(front, rest.take(i - 1), p);
        assert(front.drop_last() =~= Seq::<Seq<char>>::empty());
        reveal_with_fuel(Seq::filter, 2);
        assert(front.filter(p).len() == if p(ls[0]) { 1nat } else { 0nat });
        rest.take(i - 1).lemma_filter_len(p);
    }
}

/// Between a file's first line and its first hunk nothing is marked or numbered.
pub proof fn what_the_head_of_a_file_says(diff: Seq<char>, hunks: Seq<HunkModel>, f: int, i: int)
    requires
        0 <= f <= i < lines_of(diff).len(),
        starts_file(lines_of(diff)[f]),
        forall|j: int| f < j <= i ==> !is_heading(#[trigger] lines_of(diff)[j]),
    ensures
        ({
            let row = diff_view(diff, hunks)[i];
            !row.ai && row.lineno is None && !row.is_hunk_header && (row.is_file_header <==> i == f)
        }),
{
    let ls = lines_of(diff);
    crate::tui::diff::every_diff_line_is_kept(diff, hunks);
    rows_from_a_file(ls, hunks, Seq::empty(), false, None, f);
    if i > f {
        let rest = ls.skip(f + 1);
        assert forall|j: int| 0 <= j <= i - f - 1 implies !is_heading(#[trigger] rest[j]) by {
            assert(rest[j] == ls[f + 1 + j]);
        }
        rows_of_a_body(rest, hunks, file_named(ls[f]), false, None, i - f - 1);
        assert(diff_view(diff, hunks)[i] == diff_view(diff, hunks).skip(f + 1)[i - f - 1]);
    }
}

/// Every hunk that is pointed at is taken, in order; a place where there is none is passed over.
pub proof fn every_place_is_taken(hunks: Seq<HunkModel>, places: Seq<usize>)
    ensures
        hunks_at(hunks, places) == places.filter(|p: usize| p < hunks.len()).map_values(
            |p: usize| hunks[p as int],
        ),
    decreases places.len(),
{
    reveal(Seq::filter);
    let p = |p: usize| p < hunks.len();
    let f = |p: usize| hunks[p as int];
    if places.len() > 0 {
        let sub = places.drop_last().filter(p);
        every_place_is_taken(hunks, places.drop_last());
        assert(sub.push(places.last()).map_values(f) =~= sub.map_values(f).push(f(places.last())));
    }
    assert(hunks_at(hunks, places) =~= places.filter(p).map_values(f));
}

// ---------------------------------------------------------------- the panes

/// The colours of a diff's lines and of grades.
pub proof fn what_colours_say(rest: Seq<char>)
    ensures
        line_tone("+"@ + rest) == Tone::Green,
        line_tone("-"@ + rest) == Tone::Red,
        line_tone(" "@ + rest) == Tone::Gray,
        line_tone("@@"@ + rest) == Tone::Cyan,
        line_tone("diff --git"@ + rest) == Tone::DarkGray,
        line_tone("index "@ + rest) == Tone::DarkGray,
        crate::tui::quiz::label_tone(Label::Demonstrates) == Tone::Green,
        crate::tui::quiz::label_tone(Label::Partial) == Tone::Yellow,
        crate::tui::quiz::label_tone(Label::Restates) == Tone::Magenta,
        crate::tui::quiz::label_tone(Label::Wrong) == Tone::Red,
{
    reveal_strlit("+");
    reveal_strlit("-");
    reveal_strlit(" ");
    reveal_strlit("@@");
    reveal_strlit("diff --git");
    reveal_strlit("index ");
    starts_with_its_front("+"@, rest);
    starts_with_its_front("-"@, rest);
    starts_with_its_front("@@"@, rest);
    starts_with_its_front("diff --git"@, rest);
    starts_with_its_front("index "@, rest);
    other_start("+"@ + rest, "@@"@);
    other_start("+"@ + rest, "diff --git"@);
    other_start("+"@ + rest, "index "@);
    other_start("-"@ + rest, "@@"@);
    other_start("-"@ + rest, "diff --git"@);
    other_start("-"@ + rest, "index "@);
    other_start("-"@ + rest, "+"@);
    other_start(" "@ + rest, "@@"@);
    other_start(" "@ + rest, "diff --git"@);
    other_start(" "@ + rest, "index "@);
    other_start(" "@ + rest, "+"@);
    other_start(" "@ + rest, "-"@);
    other_start("diff --git"@ + rest, "@@"@);
    other_start("index "@ + rest, "@@"@);
}

proof fn starts_with_its_front(front: Seq<char>, rest: Seq<char>)
    ensures
        has_prefix(front + rest, front),
{
    assert((front + rest).subrange(0, front.len() as int) =~= front);
}

proof fn other_start(s: Seq<char>, front: Seq<char>)
    requires
        s.len() > 0,
        front.len() > 0,
        s[0] != front[0],
    ensures
        !has_prefix(s, front),
{
    if has_prefix(s, front) {
        assert(s.subrange(0, front.len() as int)[0] == s[0]);
    }
}

/// The pane shows as many rows as fit, from the row on top on, each from the column panned to,
/// cut at the width, with its number in front and dimmed where it is not in scope.
pub proof fn what_the_pane_shows(a: AppModel, width: nat, height: nat, i: int)
    requires
        width >= 9,
        height >= 2,
        0 <= i < height - 2,
        a.scroll + i < a.diff.len(),
    ensures
        ({
            let rows = pane_rows(a, width, height);
            let d = a.diff[a.scroll + i];
            let row = rows[i];
            let room = width - 9;
            let from = a.hscroll as int;
            &&& rows.len() == if a.diff.len() - a.scroll < height - 2 {
                a.diff.len() - a.scroll
            } else {
                height - 2
            }
            &&& from + room <= d.text.len() ==> row.visible == d.text.subrange(from, from + room)
            &&& from <= d.text.len() < from + room ==> row.visible == d.text.skip(from)
            &&& from > d.text.len() ==> row.visible.len() == 0
            &&& from <= d.text.len() ==> (row.clipped <==> d.text.len() > from + room)
            &&& row.look.dim <==> !d.ai
            &&& !row.look.bold
            &&& row.look.tone == line_tone(d.text)
            &&& d.lineno is None ==> row.gutter == "      "@
            &&& d.lineno matches Some(n) ==> row.gutter.len() == if decimal(n as nat).len() < 5 {
                6
            } else {
                decimal(n as nat).len() + 1
            }
            &&& d.lineno matches Some(n) ==> trimmed_of_blanks(row.gutter, decimal(n as nat))
        }),
{
    reveal_strlit("      ");
    reveal_strlit(" ");
    let d = a.diff[a.scroll + i];
    let room = width - 9;
    let from = a.hscroll as int;
    let row = pane_rows(a, width, height)[i];
    assert(row == row_of(d, a.hscroll as nat, room as nat));
    if from + room <= d.text.len() {
        assert(row.visible =~= d.text.subrange(from, from + room));
    }
    if d.lineno is None {
        assert(row.gutter =~= "      "@);
    } else {
        let t = decimal(d.lineno->0 as nat);
        let front = crate::text::pad::blanks(5 - t.len());
        assert(row.gutter =~= front + t + " "@);
        assert(row.gutter.subrange(front.len() as int, (front.len() + t.len()) as int) =~= t);
        assert(blanks_before(row.gutter, t, front.len() as int));
    }
}

/// Whether a text stands at a place of another with nothing but blanks before it.
pub open spec fn blanks_before(s: Seq<char>, t: Seq<char>, k: int) -> bool {
    &&& 0 <= k
    &&& k + t.len() <= s.len()
    &&& s.subrange(k, k + t.len()) == t
    &&& forall|j: int| 0 <= j < k ==> s[j] == ' '
}

/// Whether a text stands in another with one blank behind it and otherwise blanks before it.
pub open spec fn trimmed_of_blanks(s: Seq<char>, t: Seq<char>) -> bool {
    &&& s.len() > 0 && s.last() == ' '
    &&& exists|k: int| k + t.len() + 1 == s.len() && #[trigger] blanks_before(s, t, k)
}

/// The title of the pane: which rows are shown, of how many, and how far it is panned.
pub proof fn what_the_pane_is_titled(a: AppModel, height: nat)
    requires
        height >= 2,
    ensures
        ({
            let last = if a.scroll + height - 2 < a.diff.len() {
                a.scroll + height - 2
            } else {
                a.diff.len() as int
            };
            let rows = if a.diff.len() > 0 {
                " "@ + decimal((a.scroll + 1) as nat) + "–"@ + decimal(last as nat) + "/"@ + decimal(
                    a.diff.len(),
                ) + " "@
            } else {
                ""@
            };
            let cols = if a.hscroll > 0 {
                " +"@ + decimal(a.hscroll as nat) + " cols "@
            } else {
                ""@
            };
            pane_title(a, height) == " diff"@ + rows + cols
        }),
{
    reveal_strlit("");
    assert(""@ =~= Seq::empty());
}

/// Every hint that was shown is listed, behind a gap, in order.
pub proof fn every_hint_is_listed(a: Seq<Seq<char>>, h: Seq<char>, b: Seq<Seq<char>>)
    ensures
        hint_lines(a + b) == hint_lines(a) + hint_lines(b),
        hint_lines(seq![h]).len() == 2,
        hint_lines(seq![h])[0].text.len() == 0,
        hint_lines(seq![h])[1] == (PaneLineModel {
            text: "hint: "@ + h,
            look: Look { tone: Tone::Yellow, bold: false, dim: false },
        }),
        hint_lines(Seq::empty()).len() == 0,
    decreases b.len(),
{
    reveal_with_fuel(hint_lines, 2);
    assert(seq![h].drop_last() =~= Seq::<Seq<char>>::empty());
    if b.len() == 0 {
        assert(a + b =~= a);
        assert(hint_lines(a + b) =~= hint_lines(a) + hint_lines(b));
    } else {
        every_hint_is_listed(a, h, b.drop_last());
        assert((a + b).drop_last() =~= a + b.drop_last());
        assert((a + b).last() == b.last());
        assert(hint_lines(a + b) =~= hint_lines(a) + hint_lines(b));
    }
}

/// A grade is shown with its feedback; the reference only with the best grade or from the second
/// failure on.
pub proof fn when_the_reference_is_shown(slot: SlotModel, reference: Seq<char>)
    ensures
        slot.verdict is None ==> verdict_lines(slot, reference).len() == 0,
        slot.verdict matches Some((label, feedback)) ==> {
            let ls = verdict_lines(slot, reference);
            let shown = label is Demonstrates || slot.failures >= 2;
            &&& ls.len() == if shown {
                5int
            } else {
                3int
            }
            &&& ls[0].text.len() == 0
            &&& ls[1].text == label.name() && ls[1].look.bold
            &&& ls[2].text == feedback
            &&& shown ==> ls[3].text.len() == 0 && ls[4].text == "reference: "@ + reference
        },
        note_lines(None).len() == 0,
{
}

/// The pane of a question holds its text, its hints as far as they were shown, its grade and what
/// was ruled on a dispute.
pub proof fn what_the_question_pane_holds(a: AppModel, q: QuestionModel, note: Seq<char>)
    ensures
        question_lines(a, q)[0] == (PaneLineModel {
            text: q.text,
            look: Look { tone: Tone::Plain, bold: true, dim: false },
        }),
        ({
            let shown = if a.slot().hints_shown < q.hints.len() {
                q.hints.take(a.slot().hints_shown as int)
            } else {
                q.hints
            };
            question_lines(a, q).skip(1) == hint_lines(shown) + verdict_lines(a.slot(), q.reference)
                + note_lines(a.slot().note)
        }),
        note_lines(Some(note)).len() == 2,
        note_lines(Some(note))[0].text.len() == 0,
        note_lines(Some(note))[1].text == note,
        question_title(a, q) == " "@ + decimal((a.current + 1) as nat) + "/"@ + decimal(
            a.questions.len(),
        ) + " · "@ + q.kind + " · "@ + q.file + " "@,
        a.current < a.slots.len() && a.slots[a.current as int].pending is Some ==> answer_text(a)
            == "grading…"@,
        a.current < a.slots.len() && a.slots[a.current as int].pending is None
            && a.slots[a.current as int].answer.len() > 0 ==> answer_text(a)
            == a.slots[a.current as int].answer,
        a.current < a.slots.len() && a.slots[a.current as int].pending is None
            && a.slots[a.current as int].answer.len() == 0 ==> answer_text(a)
            == "press a to write your answer in $EDITOR"@,
{
    let shown = if a.slot().hints_shown < q.hints.len() {
        q.hints.take(a.slot().hints_shown as int)
    } else {
        q.hints
    };
    if a.slot().hints_shown == q.hints.len() {
        assert(q.hints.take(a.slot().hints_shown as int) =~= q.hints);
    }
    assert(question_lines(a, q).skip(1) =~= hint_lines(shown) + verdict_lines(
        a.slot(),
        q.reference,
    ) + note_lines(a.slot().note));
}

// ---------------------------------------------------------------- the editor

/// The words of a text, each behind a blank.
pub open spec fn spaced(words: Seq<Seq<char>>) -> Seq<char>
    decreases words.len(),
{
    if words.len() == 0 {
        Seq::empty()
    } else {
        seq![' '] + words[0] + spaced(words.skip(1))
    }
}

/// Lines without their first character, one behind the other.
pub open spec fn unhashed(ls: Seq<Seq<char>>) -> Seq<char>
    decreases ls.len(),
{
    if ls.len() == 0 {
        Seq::empty()
    } else {
        ls[0].skip(1) + unhashed(ls.skip(1))
    }
}

/// A comment holds every word of its text, in order, and nothing else but its hashes.
pub proof fn a_comment_keeps_its_words(text: Seq<char>)
    ensures
        unhashed(comment_lines(text)) == spaced(words_of(text)),
{
    reveal_strlit("#");
    wrapping_keeps_words("#"@, words_of(text));
    assert("#"@.skip(1) =~= Seq::<char>::empty());
    assert(Seq::<char>::empty() + spaced(words_of(text)) =~= spaced(words_of(text)));
}

proof fn wrapping_keeps_words(line: Seq<char>, words: Seq<Seq<char>>)
    requires
        line.len() > 0,
    ensures
        unhashed(wrapped(line, words)) == line.skip(1) + spaced(words),
    decreases words.len(),
{
    reveal_strlit("#");
    reveal_strlit(" ");
    reveal_with_fuel(unhashed, 2);
    if words.len() == 0 {
        if line != "#"@ {
            assert(seq![line].skip(1) =~= Seq::<Seq<char>>::empty());
        }
        assert(unhashed(wrapped(line, words)) =~= line.skip(1) + spaced(words));
    } else {
        let w = words[0];
        let rest = words.skip(1);
        wrapping_keeps_words(with_word("#"@, w), rest);
        wrapping_keeps_words(with_word(line, w), rest);
        assert(with_word(line, w).skip(1) =~= line.skip(1) + seq![' '] + w);
        assert(with_word("#"@, w).skip(1) =~= seq![' '] + w);
        let inner = wrapped(with_word("#"@, w), rest);
        assert((seq![line] + inner).skip(1) =~= inner);
        assert(unhashed(wrapped(line, words)) =~= line.skip(1) + spaced(words));
    }
}

/// A word goes on the line where it still fits within seventy-two columns, and on a line of its
/// own otherwise.
pub proof fn a_word_goes_where_it_fits(line: Seq<char>, word: Seq<char>, rest: Seq<Seq<char>>)
    requires
        line.len() > 1,
    ensures
        line.len() + 1 + word.len() <= 72 ==> wrapped(line, seq![word] + rest) == wrapped(
            line + " "@ + word,
            rest,
        ),
        line.len() + 1 + word.len() > 72 ==> wrapped(line, seq![word] + rest) == seq![line]
            + wrapped("# "@ + word, rest),
{
    reveal_strlit("#");
    reveal_strlit(" ");
    reveal_strlit("# ");
    assert((seq![word] + rest).skip(1) =~= rest);
    assert((seq![word] + rest)[0] == word);
    assert("#"@ + " "@ + word =~= "# "@ + word);
}

/// What was written is what stands above the last block of comments and blank lines, and a comment
/// above a written line stays.
pub proof fn what_is_stripped(ls: Seq<Seq<char>>, block: Seq<Seq<char>>)
    requires
        ls.len() > 0 ==> !has_prefix(ls.last(), "#"@) && trimmed(ls.last()).len() > 0,
        forall|i: int|
            0 <= i < block.len() ==> has_prefix(#[trigger] block[i], "#"@) || trimmed(block[i]).len()
                == 0,
    ensures
        without_block(ls + block) == ls,
    decreases block.len(),
{
    if block.len() == 0 {
        assert(ls + block =~= ls);
    } else {
        let rest = block.drop_last();
        assert(block[block.len() - 1] == block.last());
        assert((ls + block).last() == block.last());
        assert((ls + block).drop_last() =~= ls + rest);
        assert forall|i: int| 0 <= i < rest.len() implies has_prefix(#[trigger] rest[i], "#"@)
            || trimmed(rest[i]).len() == 0 by {
            assert(rest[i] == block[i]);
        }
        what_is_stripped(ls, rest);
    }
}

/// What was written is those lines, as they are, without blanks around them all.
pub proof fn what_was_written(body: Seq<char>)
    ensures
        written(body) == trimmed(joined(without_block(lines_of(body)), "\n"@)),
{
}

/// Lines are written one behind the other, each ended.
pub proof fn every_line_is_ended(a: Seq<Seq<char>>, l: Seq<char>, b: Seq<Seq<char>>)
    ensures
        ended(a + b) == ended(a) + ended(b),
        ended(seq![l]) == l + "\n"@,
        ended(Seq::empty()).len() == 0,
    decreases b.len(),
{
    reveal_with_fuel(ended, 2);
    assert(seq![l].drop_last() =~= Seq::<Seq<char>>::empty());
    assert(ended(seq![l]) =~= l + "\n"@);
    if b.len() == 0 {
        assert(a + b =~= a);
        assert(ended(a + b) =~= ended(a) + ended(b));
    } else {
        every_line_is_ended(a, l, b.drop_last());
        assert((a + b).drop_last() =~= a + b.drop_last());
        assert((a + b).last() == b.last());
        assert(ended(a + b) =~= ended(a) + ended(b));
    }
}

/// Every hint that was shown stands in the block, in order.
pub proof fn every_hint_stands_in_the_block(a: Seq<Seq<char>>, h: Seq<char>, b: Seq<Seq<char>>)
    ensures
        hint_block(a + b) == hint_block(a) + hint_block(b),
        hint_block(seq![h]) == "#\n"@ + ended(comment_lines("hint: "@ + h)),
        hint_block(Seq::empty()).len() == 0,
    decreases b.len(),
{
    reveal_with_fuel(hint_block, 2);
    assert(seq![h].drop_last() =~= Seq::<Seq<char>>::empty());
    assert(hint_block(seq![h]) =~= "#\n"@ + ended(comment_lines("hint: "@ + h)));
    if b.len() == 0 {
        assert(a + b =~= a);
        assert(hint_block(a + b) =~= hint_block(a) + hint_block(b));
    } else {
        every_hint_stands_in_the_block(a, h, b.drop_last());
        assert((a + b).drop_last() =~= a + b.drop_last());
        assert((a + b).last() == b.last());
        assert(hint_block(a + b) =~= hint_block(a) + hint_block(b));
    }
}

/// The block below an answer holds its question's number, kind, file and text and the hints that
/// were shown; the block below a claim has the rules for claims in place of the hints.
pub proof fn what_blocks_hold(a: AppModel)
    requires
        a.current < a.questions.len(),
    ensures
        ({
            let q = a.questions[a.current as int];
            let shown = if a.slot().hints_shown < q.hints.len() {
                q.hints.take(a.slot().hints_shown as int)
            } else {
                q.hints
            };
            let title = decimal((a.current + 1) as nat) + "/"@ + decimal(a.questions.len()) + " · "@
                + q.kind + " · "@ + q.file + "\n"@;
            let end = "#\n"@ + "# The `#` block at the end of this file is stripped.\n"@;
            &&& answer_block(a) == "# Question "@ + title + "#\n"@ + ended(comment_lines(q.text))
                + hint_block(shown) + end
            &&& dispute_block(a) == "# Disputing question "@ + title + "#\n"@ + ended(
                comment_lines(q.text),
            ) + "#\n"@ + ended(comment_lines(crate::tui::header::DISPUTE_RULES@)) + end
        }),
{
    let q = a.questions[a.current as int];
    let shown = if a.slot().hints_shown < q.hints.len() {
        q.hints.take(a.slot().hints_shown as int)
    } else {
        q.hints
    };
    if a.slot().hints_shown == q.hints.len() {
        assert(q.hints.take(a.slot().hints_shown as int) =~= q.hints);
    }
    let title = decimal((a.current + 1) as nat) + "/"@ + decimal(a.questions.len()) + " · "@
        + q.kind + " · "@ + q.file + "\n"@;
    let end = "#\n"@ + "# The `#` block at the end of this file is stripped.\n"@;
    assert(answer_block(a) =~= "# Question "@ + title + "#\n"@ + ended(comment_lines(q.text))
        + hint_block(shown) + end);
    assert(dispute_block(a) =~= "# Disputing question "@ + title + "#\n"@ + ended(
        comment_lines(q.text),
    ) + "#\n"@ + ended(comment_lines(crate::tui::header::DISPUTE_RULES@)) + end);
}

// ---------------------------------------------------------------- the list

/// A text that is too long is cut, with a mark of that in its last column.
pub proof fn what_is_cut(s: Seq<char>, n: nat)
    requires
        n > 0,
    ensures
        s.len() <= n ==> shortened(s, n) == s,
        s.len() > n ==> shortened(s, n) == s.take(n - 1) + "…"@,
{
}

/// Whether a row asks for you: a quiz was begun, or none was made.
pub open spec fn waits(row: RowModel) -> bool {
    row.status is InProgress || row.status is Ungated
}

/// The rows that ask for you are counted, all of them.
pub proof fn every_row_that_asks_is_counted(rows: Seq<RowModel>)
    ensures
        waiting(rows) == rows.filter(|r: RowModel| waits(r)).len(),
    decreases rows.len(),
{
    reveal(Seq::filter);
    if rows.len() > 0 {
        every_row_that_asks_is_counted(rows.drop_last());
    }
}

/// A row shows the name of its repository, its number, its title, its status and its coverage, each
/// in a column of its own.
pub proof fn what_a_listed_row_shows(row: RowModel)
    ensures
        ({
            let name = file_tail(row.repo);
            let number = decimal(row.pr_number as nat);
            let cover = if row.coverage is Some { row.coverage->0 } else { ""@ };
            let title = if row.title.len() > 40 { row.title.take(40) } else { row.title };
            let cut = if row.title.len() > 37 { row.title.take(36) + "…"@ } else { row.title };
            &&& cells_of(row) == seq![
                filled(name, 16),
                "#"@ + filled(number, 6),
                filled(cut, 38),
                filled(row.status.text(), 15),
                cover,
            ]
            &&& listing_text(row) == (if waits(row) { "*"@ } else { " "@ }) + " "@ + filled(
                name,
                16,
            ) + " #"@ + filled(number, 6) + " "@ + filled(title, 40) + " "@ + filled(
                row.status.text(),
                15,
            ) + " "@ + cover
        }),
{
    reveal_strlit("");
    assert(""@ =~= Seq::empty());
    let title = if row.title.len() > 40 { row.title.take(40) } else { row.title };
    let cut = if row.title.len() > 37 { row.title.take(36) + "…"@ } else { row.title };
    filling(file_tail(row.repo), 16);
    filling(decimal(row.pr_number as nat), 6);
    filling(cut, 38);
    filling(title, 40);
    filling(row.status.text(), 15);
}

/// A text with blanks behind it up to a width.
pub open spec fn filled(s: Seq<char>, width: nat) -> Seq<char>
    decreases width - s.len(),
{
    if s.len() >= width {
        s
    } else {
        filled(s.push(' '), width)
    }
}

proof fn filling(s: Seq<char>, width: nat)
    ensures
        crate::text::pad::padded(s, width) == filled(s, width),
    decreases width - s.len(),
{
    if s.len() < width {
        filling(s.push(' '), width);
        assert(crate::text::pad::padded(s, width) =~= crate::text::pad::padded(s.push(' '), width));
    } else {
        assert(crate::text::pad::padded(s, width) =~= s);
    }
}

} // verus!
