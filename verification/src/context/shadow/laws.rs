//! What holds of the dispatch below a guard, whatever the file.

use vstd::prelude::*;
use crate::context::new_side_start;
use crate::context::shadow::{
    bare, bare_lines, declarers, dispatch_below, dispatchers, dispatches, floor_of, holds_code,
    hunk_report, hunk_reports, indentation, interceptors, intercepts, last_line, least_indentation,
    line_of, outermost, prose_extensions, set_in, shadowed_lines, some_intercepts,
};
use crate::context::tree::{extension_of, Tree};
use crate::git::HunkModel;
use crate::text::chars::{is_space, lowercase};
use crate::text::number::decimal;
use crate::text::search::{has_prefix, has_text};
use crate::text::split::{at_most, joined, lines_of, trimmed, trimmed_start, utf8_length};
use crate::text::words::{has_own_word, has_some_word};

verus! {

/// Everything below a guard is searched: from behind the change up to the first line, blank
/// ones apart, that lies further out or opens a declaration at the same level, every line that
/// dispatches and was not added is reported, with its number. Blank lines end nothing.
pub proof fn everything_below_is_searched(
    ls: Seq<Seq<char>>,
    from: int,
    end: int,
    stop: int,
    floor: int,
    ts: Seq<Seq<char>>,
)
    requires
        0 <= from <= stop <= end,
        stop <= ls.len(),
        forall|i: int|
            from <= i < stop ==> trimmed(#[trigger] ls[i]).len() == 0 || (indentation(ls[i])
                >= floor && (indentation(ls[i]) == floor ==> !has_some_word(
                trimmed(ls[i]),
                declarers(),
            ))),
        stop < end && stop < ls.len() ==> trimmed(ls[stop]).len() > 0 && (indentation(ls[stop])
            < floor || (indentation(ls[stop]) == floor && has_some_word(
            trimmed(ls[stop]),
            declarers(),
        ))),
    ensures
        dispatch_below(ls, from, end, floor, ts) == Seq::new(
            (stop - from) as nat,
            |k: int| from + k,
        ).filter(
            |i: int|
                trimmed(ls[i]).len() > 0 && !ts.contains(trimmed(ls[i])) && dispatches(
                    trimmed(ls[i]),
                ),
        ).map_values(|i: int| decimal((i + 1) as nat) + ": "@ + trimmed(ls[i])),
    decreases stop - from,
{
    let p = |i: int|
        trimmed(ls[i]).len() > 0 && !ts.contains(trimmed(ls[i])) && dispatches(trimmed(ls[i]));
    let f = |i: int| decimal((i + 1) as nat) + ": "@ + trimmed(ls[i]);
    let places = Seq::new((stop - from) as nat, |k: int| from + k);
    if from == stop {
        reveal(Seq::filter);
        assert(places =~= Seq::<int>::empty());
        assert(places.filter(p) =~= Seq::<int>::empty());
        assert(dispatch_below(ls, from, end, floor, ts) =~= places.filter(p).map_values(f));
    } else {
        let rest = Seq::new((stop - (from + 1)) as nat, |k: int| from + 1 + k);
        everything_below_is_searched(ls, from + 1, end, stop, floor, ts);
        assert(places =~= seq![from] + rest);
        Seq::filter_distributes_over_add(seq![from], rest, p);
        assert(seq![from].filter(p) =~= if p(from) { seq![from] } else { Seq::empty() }) by {
            reveal(Seq::filter);
            assert(seq![from].drop_last() =~= Seq::<int>::empty());
            assert(Seq::<int>::empty().filter(p) =~= Seq::<int>::empty());
        }
        assert(dispatch_below(ls, from, end, floor, ts) =~= places.filter(p).map_values(f));
    }
}

/// A line is looked for from a place on, and the first that reads so is taken.
pub proof fn the_first_such_line(ls: Seq<Seq<char>>, needle: Seq<char>, after: int, i: int)
    requires
        0 <= after <= i <= ls.len(),
        forall|j: int| after <= j < i ==> trimmed(#[trigger] ls[j]) != needle,
        i < ls.len() ==> trimmed(ls[i]) == needle,
    ensures
        line_of(ls, needle, after) == if i < ls.len() {
            Some(i)
        } else {
            None::<int>
        },
    decreases i - after,
{
    if after < i {
        assert(trimmed(ls[after]) != needle);
        the_first_such_line(ls, needle, after + 1, i);
    }
}

/// The change ends where the last of its lines stands that is found at all.
pub proof fn where_the_change_ends(ls: Seq<Seq<char>>, ts: Seq<Seq<char>>, first: int, m: int)
    requires
        0 <= m < ts.len(),
        line_of(ls, ts[m], first) is Some,
        forall|k: int| m < k < ts.len() ==> line_of(ls, #[trigger] ts[k], first) is None,
    ensures
        last_line(ls, ts, first) == line_of(ls, ts[m], first)->0,
    decreases ts.len(),
{
    if m < ts.len() - 1 {
        assert(line_of(ls, ts[ts.len() - 1], first) is None);
        assert forall|k: int| m < k < ts.drop_last().len() implies line_of(
            ls,
            #[trigger] ts.drop_last()[k],
            first,
        ) is None by {
            assert(ts.drop_last()[k] == ts[k]);
        }
        where_the_change_ends(ls, ts.drop_last(), first, m);
    }
}

/// The level of a change is the least indentation among its lines that are found.
pub proof fn the_level_of_the_change(ls: Seq<Seq<char>>, ts: Seq<Seq<char>>, first: int, m: int)
    requires
        0 <= m < ts.len(),
        line_of(ls, ts[m], first) is Some,
    ensures
        floor_of(ls, ts, first) <= indentation(ls[line_of(ls, ts[m], first)->0]),
        exists|k: int|
            0 <= k < ts.len() && line_of(ls, #[trigger] ts[k], first) is Some && floor_of(ls, ts, first)
                == indentation(ls[line_of(ls, ts[k], first)->0]),
{
    least_of_all(ls, ts, first, m);
}

proof fn least_of_all(ls: Seq<Seq<char>>, ts: Seq<Seq<char>>, first: int, m: int)
    requires
        0 <= m < ts.len(),
        line_of(ls, ts[m], first) is Some,
    ensures
        least_indentation(ls, ts, first) matches Some(d) && d <= indentation(
            ls[line_of(ls, ts[m], first)->0],
        ) && exists|k: int|
            0 <= k < ts.len() && line_of(ls, #[trigger] ts[k], first) is Some && d == indentation(
                ls[line_of(ls, ts[k], first)->0],
            ),
    decreases ts.len(),
{
    let rest = ts.drop_last();
    let n = ts.len() - 1;
    assert(ts[n] == ts.last());
    if m < n {
        assert(rest[m] == ts[m]);
        least_of_all(ls, rest, first, m);
        let d = least_indentation(ls, rest, first)->0;
        let k = choose|k: int|
            0 <= k < rest.len() && line_of(ls, #[trigger] rest[k], first) is Some && d
                == indentation(ls[line_of(ls, rest[k], first)->0]);
        assert(ts[k] == rest[k]);
        if line_of(ls, ts.last(), first) is Some {
            assert(line_of(ls, ts[n], first) is Some);
        }
    } else {
        assert(line_of(ls, ts[n], first) is Some);
        if least_indentation(ls, rest, first) is Some {
            some_least(ls, rest, first);
            let d = least_indentation(ls, rest, first)->0;
            let k = choose|k: int|
                0 <= k < rest.len() && line_of(ls, #[trigger] rest[k], first) is Some && d
                    == indentation(ls[line_of(ls, rest[k], first)->0]);
            assert(ts[k] == rest[k]);
        }
    }
}

proof fn some_least(ls: Seq<Seq<char>>, ts: Seq<Seq<char>>, first: int)
    requires
        least_indentation(ls, ts, first) is Some,
    ensures
        exists|k: int|
            0 <= k < ts.len() && line_of(ls, #[trigger] ts[k], first) is Some
                && least_indentation(ls, ts, first)->0 == indentation(
                ls[line_of(ls, ts[k], first)->0],
            ),
    decreases ts.len(),
{
    let rest = ts.drop_last();
    let n = ts.len() - 1;
    assert(ts[n] == ts.last());
    if least_indentation(ls, rest, first) is Some {
        some_least(ls, rest, first);
        let k = choose|k: int|
            0 <= k < rest.len() && line_of(ls, #[trigger] rest[k], first) is Some
                && least_indentation(ls, rest, first)->0 == indentation(
                ls[line_of(ls, rest[k], first)->0],
            );
        assert(ts[k] == rest[k]);
    }
    if line_of(ls, ts.last(), first) is Some {
        assert(line_of(ls, ts[n], first) is Some);
    }
}

/// The outermost line of a change is the first of its lines that is found at its level.
pub proof fn the_outermost_line(
    ls: Seq<Seq<char>>,
    ts: Seq<Seq<char>>,
    first: int,
    floor: int,
    m: int,
)
    requires
        0 <= m < ts.len(),
        line_of(ls, ts[m], first) is Some,
        indentation(ls[line_of(ls, ts[m], first)->0]) == floor,
        forall|k: int|
            0 <= k < m ==> line_of(ls, #[trigger] ts[k], first) is None || indentation(
                ls[line_of(ls, ts[k], first)->0],
            ) != floor,
    ensures
        outermost(ls, ts, first, floor) == Some(ts[m]),
    decreases ts.len(),
{
    if m > 0 {
        assert(line_of(ls, ts[0], first) is None || indentation(ls[line_of(ls, ts[0], first)->0])
            != floor);
        assert(ts.skip(1)[m - 1] == ts[m]);
        assert forall|k: int| 0 <= k < m - 1 implies line_of(ls, #[trigger] ts.skip(1)[k], first) is None
            || indentation(ls[line_of(ls, ts.skip(1)[k], first)->0]) != floor by {
            assert(ts.skip(1)[k] == ts[k + 1]);
        }
        the_outermost_line(ls, ts.skip(1), first, floor, m - 1);
    }
}

/// What a hunk shadows: where one of its lines diverts control, it is found in the file from
/// its place in the header on, and its outermost line opens no declaration, then two lines that
/// dispatch among the eighty below it are reported, or the first eight, under a heading with the
/// place and the first six of its lines.
pub proof fn a_guard_is_reported(
    h: HunkModel,
    text: Seq<char>,
    start: nat,
    first: int,
    m: int,
    head: int,
    below: Seq<Seq<char>>,
)
    requires
        holds_code(h.file),
        exists|i: int| 0 <= i < bare_lines(h.added).len() && intercepts(#[trigger] bare_lines(h.added)[i]),
        new_side_start(h.header, usize::MAX as nat) == Some(start),
        (if start > 0 {
            start - 1
        } else {
            0
        }) <= first < lines_of(text).len(),
        trimmed(lines_of(text)[first]) == bare_lines(h.added)[0],
        forall|j: int|
            (if start > 0 {
                start - 1
            } else {
                0
            }) <= j < first ==> trimmed(#[trigger] lines_of(text)[j]) != bare_lines(h.added)[0],
        0 <= m < bare_lines(h.added).len(),
        line_of(lines_of(text), bare_lines(h.added)[m], first) is Some,
        forall|k: int|
            m < k < bare_lines(h.added).len() ==> line_of(
                lines_of(text),
                #[trigger] bare_lines(h.added)[k],
                first,
            ) is None,
        0 <= head < bare_lines(h.added).len(),
        outermost(
            lines_of(text),
            bare_lines(h.added),
            first,
            floor_of(lines_of(text), bare_lines(h.added), first),
        ) == Some(bare_lines(h.added)[head]),
        below == dispatch_below(
            lines_of(text),
            line_of(lines_of(text), bare_lines(h.added)[m], first)->0 + 1,
            line_of(lines_of(text), bare_lines(h.added)[m], first)->0 + 81,
            floor_of(lines_of(text), bare_lines(h.added), first),
            bare_lines(h.added),
        ),
    ensures
        ({
            let ts = bare_lines(h.added);
            let shown = if ts.len() < 6 { ts } else { ts.take(6) };
            let heading = "# `"@ + h.file + ":"@ + decimal((first + 1) as nat)
                + "` runs before what follows it\n"@ + joined(
                shown.map_values(|t: Seq<char>| "   "@ + t),
                "\n"@,
            );
            hunk_report(h, Some(text)) == if below.len() < 2 || has_some_word(
                ts[head],
                declarers(),
            ) {
                Seq::empty()
            } else if below.len() <= 8 {
                seq![heading] + below
            } else {
                seq![heading] + below.take(8)
            }
        }),
{
    let ts = bare_lines(h.added);
    let ls = lines_of(text);
    let from = if start > 0 { start - 1 } else { 0 };
    the_first_such_line(ls, ts[0], from, first);
    where_the_change_ends(ls, ts, first, m);
    assert(some_intercepts(ts));
    let shown = if ts.len() < 6 { ts } else { ts.take(6) };
    assert(set_in(at_most(ts, 6)) =~= shown.map_values(|t: Seq<char>| "   "@ + t));
    assert(shadowed_lines(ls, ts, first) == at_most(below, 8));
    assert(at_most(below, 8) =~= if below.len() <= 8 { below } else { below.take(8) });
}

/// A hunk of prose, one that diverts nothing, and one whose file cannot be read or no longer
/// holds it, shadow nothing.
pub proof fn nothing_to_report(h: HunkModel, text: Option<Seq<char>>)
    requires
        !holds_code(h.file) || (forall|i: int|
            0 <= i < bare_lines(h.added).len() ==> !intercepts(#[trigger] bare_lines(h.added)[i]))
            || text is None || new_side_start(h.header, usize::MAX as nat) is None || (
        bare_lines(h.added).len() > 0 && forall|j: int|
            0 <= j < lines_of(text->0).len() ==> trimmed(#[trigger] lines_of(text->0)[j])
                != bare_lines(h.added)[0]),
    ensures
        hunk_report(h, text).len() == 0,
{
    if text is Some && new_side_start(h.header, usize::MAX as nat) is Some && bare_lines(
        h.added,
    ).len() > 0 {
        let ls = lines_of(text->0);
        let start = new_side_start(h.header, usize::MAX as nat)->0;
        let from = if start > 0 { start - 1 } else { 0 };
        if forall|j: int| 0 <= j < ls.len() ==> trimmed(#[trigger] ls[j]) != bare_lines(h.added)[0] {
            if from <= ls.len() {
                the_first_such_line(ls, bare_lines(h.added)[0], from, ls.len() as int);
            }
        }
    }
}

/// What hunks shadow is what each of them shadows, one after the other.
pub proof fn every_hunk_is_looked_at(tree: Tree, a: Seq<HunkModel>, h: HunkModel, b: Seq<HunkModel>)
    ensures
        hunk_reports(tree, a + b) == hunk_reports(tree, a) + hunk_reports(tree, b),
        hunk_reports(tree, seq![h]) == hunk_report(h, tree.text_at(h.file)),
        hunk_reports(tree, Seq::empty()).len() == 0,
    decreases b.len(),
{
    reveal_with_fuel(hunk_reports, 2);
    assert(seq![h].drop_last() =~= Seq::<HunkModel>::empty());
    assert(hunk_reports(tree, seq![h]) =~= hunk_report(h, tree.text_at(h.file)));
    if b.len() == 0 {
        assert(a + b =~= a);
        assert(hunk_reports(tree, a + b) =~= hunk_reports(tree, a) + hunk_reports(tree, b));
    } else {
        every_hunk_is_looked_at(tree, a, h, b.drop_last());
        assert((a + b).drop_last() =~= a + b.drop_last());
        assert((a + b).last() == b.last());
        assert(hunk_reports(tree, a + b) =~= hunk_reports(tree, a) + hunk_reports(tree, b));
    }
}

/// The lines of a guard are its added lines, each without white space around it, the blank ones
/// left out.
pub proof fn the_lines_of_a_guard(added: Seq<Seq<char>>)
    ensures
        bare_lines(added) == added.map_values(|l: Seq<char>| bare(l)).filter(
            |t: Seq<char>| t.len() > 0,
        ),
        forall|l: Seq<char>| l.len() > 0 && l[0] != '+' ==> #[trigger] bare(l) == trimmed(l),
    decreases added.len(),
{
    reveal(Seq::filter);
    let f = |l: Seq<char>| bare(l);
    let p = |t: Seq<char>| t.len() > 0;
    assert forall|l: Seq<char>| l.len() > 0 && l[0] != '+' implies #[trigger] bare(l) == trimmed(
        l,
    ) by {
        reveal_strlit("+");
        if has_prefix(l, "+"@) {
            assert(l.subrange(0, 1)[0] == l[0]);
        }
    }
    if added.len() > 0 {
        the_lines_of_a_guard(added.drop_last());
        assert(added.map_values(f).drop_last() =~= added.drop_last().map_values(f));
        assert(added.map_values(f).last() == bare(added.last()));
    }
    assert(bare_lines(added) =~= added.map_values(f).filter(p));
}

/// The indentation of a line is what its white space at the front takes, in bytes.
pub proof fn indentation_is_of_the_front(pad: Seq<char>, code: Seq<char>)
    requires
        forall|i: int| 0 <= i < pad.len() ==> is_space(#[trigger] pad[i]),
        code.len() > 0 ==> !is_space(code[0]),
    ensures
        indentation(pad + code) == utf8_length(pad + code) - utf8_length(code),
{
    crate::text::split::indentation_keeps_words(pad, code);
    assert(trimmed_start(code) == code);
}

/// Each of these words, standing by itself in a line that is no comment, stops or diverts
/// control; nothing else does.
pub proof fn what_diverts_control(t: Seq<char>)
    ensures
        intercepts(t) <==> !has_prefix(t, "//"@) && !has_prefix(t, "#"@) && (has_own_word(
            t,
            "return"@,
        ) || has_own_word(t, "continue"@) || has_own_word(t, "break"@) || has_own_word(t, "bail!"@)
            || has_own_word(t, "raise"@) || has_own_word(t, "throw"@) || has_own_word(t, "next"@)
            || has_own_word(t, "halt"@) || has_own_word(t, "abort"@) || has_own_word(
            t,
            "redirect_to"@,
        ) || has_own_word(t, "goto"@)),
{
    let ws = interceptors();
    assert(ws[0] == "return"@ && ws[1] == "continue"@ && ws[2] == "break"@ && ws[3] == "bail!"@);
    assert(ws[4] == "raise"@ && ws[5] == "throw"@ && ws[6] == "next"@ && ws[7] == "halt"@);
    assert(ws[8] == "abort"@ && ws[9] == "redirect_to"@ && ws[10] == "goto"@);
    if has_some_word(t, ws) {
        let i = choose|i: int| 0 <= i < ws.len() && has_own_word(t, #[trigger] ws[i]);
        assert(has_own_word(t, ws[i]));
    }
}

/// A line dispatches where it holds an arrow or one of these words.
pub proof fn what_dispatches(t: Seq<char>)
    ensures
        dispatches(t) <==> has_text(t, "=>"@) || has_own_word(t, "match"@) || has_own_word(t, "if"@)
            || has_own_word(t, "elsif"@) || has_own_word(t, "elif"@) || has_own_word(t, "else"@)
            || has_own_word(t, "when"@) || has_own_word(t, "case"@) || has_own_word(t, "switch"@),
{
    let ws = dispatchers();
    assert(ws[0] == "match"@ && ws[1] == "if"@ && ws[2] == "elsif"@ && ws[3] == "elif"@);
    assert(ws[4] == "else"@ && ws[5] == "when"@ && ws[6] == "case"@ && ws[7] == "switch"@);
    if has_some_word(t, ws) {
        let i = choose|i: int| 0 <= i < ws.len() && has_own_word(t, #[trigger] ws[i]);
        assert(has_own_word(t, ws[i]));
    }
}

/// Each of these words opens a declaration; nothing else does.
pub proof fn what_declares(t: Seq<char>)
    ensures
        has_some_word(t, declarers()) <==> has_own_word(t, "fn"@) || has_own_word(t, "def"@)
            || has_own_word(t, "class"@) || has_own_word(t, "func"@) || has_own_word(t, "struct"@)
            || has_own_word(t, "enum"@) || has_own_word(t, "trait"@) || has_own_word(t, "impl"@)
            || has_own_word(t, "interface"@) || has_own_word(t, "module"@) || has_own_word(
            t,
            "type"@,
        ) || has_own_word(t, "const"@),
{
    let ws = declarers();
    assert(ws[0] == "fn"@ && ws[1] == "def"@ && ws[2] == "class"@ && ws[3] == "func"@);
    assert(ws[4] == "struct"@ && ws[5] == "enum"@ && ws[6] == "trait"@ && ws[7] == "impl"@);
    assert(ws[8] == "interface"@ && ws[9] == "module"@ && ws[10] == "type"@ && ws[11] == "const"@);
    if has_some_word(t, ws) {
        let i = choose|i: int| 0 <= i < ws.len() && has_own_word(t, #[trigger] ws[i]);
        assert(has_own_word(t, ws[i]));
    }
}

/// Files with these extensions, in whatever case, hold no code; all others do.
pub proof fn what_holds_no_code(path: Seq<char>)
    ensures
        ({
            let e = lowercase(extension_of(path));
            !holds_code(path) <==> e == "md"@ || e == "markdown"@ || e == "txt"@ || e == "rst"@ || e
                == "adoc"@ || e == "org"@ || e == "csv"@ || e == "tsv"@ || e == "json"@ || e
                == "yaml"@ || e == "yml"@ || e == "toml"@ || e == "lock"@ || e == "ini"@ || e
                == "cfg"@ || e == "sql"@ || e == "svg"@
        }),
{
    let ws = prose_extensions();
    assert(ws[0] == "md"@ && ws[1] == "markdown"@ && ws[2] == "txt"@ && ws[3] == "rst"@);
    assert(ws[4] == "adoc"@ && ws[5] == "org"@ && ws[6] == "csv"@ && ws[7] == "tsv"@);
    assert(ws[8] == "json"@ && ws[9] == "yaml"@ && ws[10] == "yml"@ && ws[11] == "toml"@);
    assert(ws[12] == "lock"@ && ws[13] == "ini"@ && ws[14] == "cfg"@ && ws[15] == "sql"@);
    assert(ws[16] == "svg"@);
    let e = lowercase(extension_of(path));
    if ws.contains(e) {
        let i = choose|i: int| 0 <= i < ws.len() && ws[i] == e;
        assert(ws[i] == e);
    }
}

} // verus!
