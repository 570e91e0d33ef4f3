//! What holds of a diff once it is read, line by line.

use vstd::prelude::*;
use crate::git::{
    added_lines, anchor_model, anchor_text, content_lines, file_named, grep_hits, hit_outside,
    hunk_length, hunks_in, marked_files, query_args, HunkModel, Query,
};
use crate::digest::{hex, sha256_digest};
use crate::text::laws::{
    before_the_first, first_of_the_first, prefixes_are_taken_off, same_choice, the_first_piece,
};
use crate::text::search::{
    char_position, has_prefix, has_text, occurs_at, position, position_from_meaning,
};
use crate::text::split::{collapsed, joined, lines_of, pieces, texts, words_of};

verus! {

/// A hunk goes from its header to the next line that opens a hunk or a file. What it adds
/// are its lines with a plus, without it; its body is the header and all of its lines, context,
/// additions and removals alike, in order. Only lines that read as file markers belong to
/// neither. A hunk that adds nothing is none.
pub proof fn a_hunk_is_read_whole(
    file: Seq<char>,
    header: Seq<char>,
    body: Seq<Seq<char>>,
    rest: Seq<Seq<char>>,
)
    requires
        has_prefix(header, "@@"@),
        forall|i: int|
            0 <= i < body.len() ==> !has_prefix(#[trigger] body[i], "@@"@) && !has_prefix(
                body[i],
                "diff --git "@,
            ),
        rest.len() > 0 ==> has_prefix(rest[0], "@@"@) || has_prefix(rest[0], "diff --git "@),
    ensures
        ({
            let added = body.filter(
                |l: Seq<char>| has_prefix(l, "+"@) && !has_prefix(l, "+++"@),
            ).map_values(|l: Seq<char>| l.skip(1));
            let kept = body.filter(
                |l: Seq<char>| !has_prefix(l, "+++"@) && !has_prefix(l, "---"@),
            );
            let hunk = HunkModel {
                file,
                anchor: anchor_model(added),
                header,
                added,
                body: joined(seq![header] + kept, "\n"@),
            };
            hunks_in(file, seq![header] + body + rest) == if added.len() > 0 {
                seq![hunk] + hunks_in(file, rest)
            } else {
                hunks_in(file, rest)
            }
        }),
{
    let ls = seq![header] + body + rest;
    let after = body + rest;
    prefixes_differ(header);
    assert(ls.skip(1) =~= after);
    assert(ls[0] == header);
    length_of_body(body, rest);
    assert(after.take(body.len() as int) =~= body);
    what_is_added(body);
    what_is_kept(body);
    lines_of_a_hunk_hold_none(file, body, rest);
}

proof fn prefixes_differ(line: Seq<char>)
    ensures
        has_prefix(line, "@@"@) ==> !has_prefix(line, "diff --git "@),
        has_prefix(line, "+"@) ==> !has_prefix(line, "---"@),
{
    reveal_strlit("@@");
    reveal_strlit("diff --git ");
    reveal_strlit("+");
    reveal_strlit("---");
    if has_prefix(line, "@@"@) && has_prefix(line, "diff --git "@) {
        assert(line.subrange(0, 2)[0] == '@');
        assert(line.subrange(0, 11)[0] == 'd');
        assert(line.subrange(0, 2)[0] == line[0]);
        assert(line.subrange(0, 11)[0] == line[0]);
    }
    if has_prefix(line, "+"@) && has_prefix(line, "---"@) {
        assert(line.subrange(0, 1)[0] == '+');
        assert(line.subrange(0, 3)[0] == '-');
        assert(line.subrange(0, 1)[0] == line[0]);
        assert(line.subrange(0, 3)[0] == line[0]);
    }
}

proof fn length_of_body(body: Seq<Seq<char>>, rest: Seq<Seq<char>>)
    requires
        forall|i: int|
            0 <= i < body.len() ==> !has_prefix(#[trigger] body[i], "@@"@) && !has_prefix(
                body[i],
                "diff --git "@,
            ),
        rest.len() > 0 ==> has_prefix(rest[0], "@@"@) || has_prefix(rest[0], "diff --git "@),
    ensures
        hunk_length(body + rest) == body.len(),
    decreases body.len(),
{
    let all = body + rest;
    if body.len() == 0 {
        if rest.len() > 0 {
            assert(all[0] == rest[0]);
            prefixes_differ(rest[0]);
        }
    } else {
        assert(all[0] == body[0]);
        assert(all.skip(1) =~= body.skip(1) + rest);
        assert forall|i: int| 0 <= i < body.skip(1).len() implies !has_prefix(
            #[trigger] body.skip(1)[i],
            "@@"@,
        ) && !has_prefix(body.skip(1)[i], "diff --git "@) by {
            assert(body.skip(1)[i] == body[i + 1]);
        }
        length_of_body(body.skip(1), rest);
    }
}

proof fn what_is_added(body: Seq<Seq<char>>)
    ensures
        added_lines(body) == body.filter(
            |l: Seq<char>| has_prefix(l, "+"@) && !has_prefix(l, "+++"@),
        ).map_values(|l: Seq<char>| l.skip(1)),
    decreases body.len(),
{
    reveal(Seq::filter);
    let p = |l: Seq<char>| has_prefix(l, "+"@) && !has_prefix(l, "+++"@);
    let f = |l: Seq<char>| l.skip(1);
    if body.len() > 0 {
        what_is_added(body.drop_last());
        prefixes_differ(body.last());
        let sub = body.drop_last().filter(p);
        assert(sub.push(body.last()).map_values(f) =~= sub.map_values(f).push(f(body.last())));
    }
    assert(added_lines(body) =~= body.filter(p).map_values(f));
}

proof fn what_is_kept(body: Seq<Seq<char>>)
    ensures
        content_lines(body) == body.filter(
            |l: Seq<char>| !has_prefix(l, "+++"@) && !has_prefix(l, "---"@),
        ),
    decreases body.len(),
{
    reveal(Seq::filter);
    if body.len() > 0 {
        what_is_kept(body.drop_last());
    }
}

proof fn lines_of_a_hunk_hold_none(file: Seq<char>, body: Seq<Seq<char>>, rest: Seq<Seq<char>>)
    requires
        forall|i: int|
            0 <= i < body.len() ==> !has_prefix(#[trigger] body[i], "@@"@) && !has_prefix(
                body[i],
                "diff --git "@,
            ),
    ensures
        hunks_in(file, body + rest) == hunks_in(file, rest),
    decreases body.len(),
{
    if body.len() == 0 {
        assert(body + rest =~= rest);
    } else {
        assert((body + rest)[0] == body[0]);
        assert((body + rest).skip(1) =~= body.skip(1) + rest);
        assert forall|i: int| 0 <= i < body.skip(1).len() implies !has_prefix(
            #[trigger] body.skip(1)[i],
            "@@"@,
        ) && !has_prefix(body.skip(1)[i], "diff --git "@) by {
            assert(body.skip(1)[i] == body[i + 1]);
        }
        lines_of_a_hunk_hold_none(file, body.skip(1), rest);
    }
}

/// A `diff --git` line says which file the hunks behind it are about; no other line outside
/// of a hunk says anything.
pub proof fn a_file_line_names_what_follows(file: Seq<char>, line: Seq<char>, rest: Seq<Seq<char>>)
    requires
        !has_prefix(line, "@@"@),
    ensures
        has_prefix(line, "diff --git "@) ==> hunks_in(file, seq![line] + rest) == hunks_in(
            file_named(line),
            rest,
        ),
        !has_prefix(line, "diff --git "@) ==> hunks_in(file, seq![line] + rest) == hunks_in(
            file,
            rest,
        ),
        hunks_in(file, Seq::empty()).len() == 0,
{
    assert((seq![line] + rest)[0] == line);
    assert((seq![line] + rest).skip(1) =~= rest);
}

/// The file is the one after the change: what follows the first ` b/`, up to the next.
pub proof fn the_file_after_the_change(old_path: Seq<char>, path: Seq<char>)
    requires
        !has_text(path, " b/"@),
        forall|j: int|
            0 <= j < ("a/"@ + old_path).len() ==> !occurs_at(
                "a/"@ + old_path + " b/"@ + path,
                " b/"@,
                j,
            ),
    ensures
        file_named("diff --git "@ + ("a/"@ + old_path + " b/"@ + path)) == path,
{
    reveal_strlit(" b/");
    let names = "a/"@ + old_path + " b/"@ + path;
    let line = "diff --git "@ + names;
    assert(line.skip("diff --git "@.len() as int) =~= names);
    the_first_piece("a/"@ + old_path, " b/"@, path);
    position_from_meaning(path, " b/"@, 0);
    assert(position(path, " b/"@) is None);
    assert(pieces(path, " b/"@) =~= seq![path]);
}

/// An anchor is the digest of the words of the added lines, in order, a blank between each
/// two and a line feed behind each line that has any.
pub proof fn an_anchor_is_of_the_words(a: Seq<Seq<char>>, line: Seq<char>, b: Seq<Seq<char>>)
    ensures
        anchor_text(a + b) == anchor_text(a) + anchor_text(b),
        anchor_text(seq![line]) == if words_of(line).len() == 0 {
            Seq::empty()
        } else {
            joined(words_of(line), " "@) + "\n"@
        },
        anchor_model(a) == "sha256:"@ + hex(
            sha256_digest(vstd::utf8::encode_utf8(anchor_text(a))),
        ),
    decreases b.len(),
{
    assert(seq![line].drop_last() =~= Seq::<Seq<char>>::empty());
    reveal_with_fuel(anchor_text, 2);
    words_leave_something(line);
    assert(anchor_text(seq![line]) =~= if words_of(line).len() == 0 {
        Seq::empty()
    } else {
        joined(words_of(line), " "@) + "\n"@
    });
    if b.len() == 0 {
        assert(a + b =~= a);
        assert(anchor_text(a + b) =~= anchor_text(a) + anchor_text(b));
    } else {
        an_anchor_is_of_the_words(a, line, b.drop_last());
        assert((a + b).drop_last() =~= a + b.drop_last());
        assert((a + b).last() == b.last());
        assert(anchor_text(a + b) =~= anchor_text(a) + anchor_text(b));
    }
}

proof fn words_leave_something(line: Seq<char>)
    ensures
        collapsed(line).len() == 0 <==> words_of(line).len() == 0,
{
    if words_of(line).len() > 0 {
        let t = crate::text::split::trimmed_start(line);
        let n = crate::text::split::word_length(t);
        crate::text::split::trimmed_start_is_suffix(line);
        crate::text::split::word_length_bounds(t);
        assert(words_of(line)[0] == t.take(n));
        assert(t.take(n).len() == n);
        joined_is_no_shorter(words_of(line), " "@);
    }
}

proof fn joined_is_no_shorter(parts: Seq<Seq<char>>, sep: Seq<char>)
    requires
        parts.len() > 0,
    ensures
        joined(parts, sep).len() >= parts[0].len(),
    decreases parts.len(),
{
    if parts.len() > 1 {
        joined_is_no_shorter(parts.drop_last(), sep);
    }
}

/// The hits of a search are the lines that it printed whose file, up to the first colon, is
/// not excluded: the first forty of them, in order.
pub proof fn hits_are_elsewhere(out: Seq<char>, exclude: Seq<Seq<char>>)
    ensures
        ({
            let all = lines_of(out).filter(
                |l: Seq<char>| !exclude.contains(l.take(char_position(l, ':'))),
            );
            &&& grep_hits(out, exclude).len() == if all.len() < 40 { all.len() } else { 40 }
            &&& forall|i: int|
                0 <= i < grep_hits(out, exclude).len() ==> #[trigger] grep_hits(out, exclude)[i]
                    == all[i]
        }),
{
    let ls = lines_of(out);
    let p = |l: Seq<char>| !exclude.contains(l.take(char_position(l, ':')));
    reveal_strlit(":");
    assert(":"@ =~= seq![':']);
    assert forall|i: int| 0 <= i < ls.len() implies hit_outside(exclude)(#[trigger] ls[i]) == p(
        ls[i],
    ) by {
        before_the_first(ls[i], ':', ":"@);
    }
    same_choice(ls, hit_outside(exclude), p);
    first_of_the_first(ls.filter(p), 40, 40);
}

/// Each file is told by itself: it is marked where its value is `set` or `true`.
pub proof fn marks_are_told_one_by_one(
    path: Seq<char>,
    name: Seq<char>,
    value: Seq<char>,
    rest: Seq<Seq<char>>,
)
    ensures
        value == "set"@ || value == "true"@ ==> marked_files(seq![path, name, value] + rest)
            == seq![path] + marked_files(rest),
        value != "set"@ && value != "true"@ ==> marked_files(seq![path, name, value] + rest)
            == marked_files(rest),
        rest.len() < 3 ==> marked_files(rest).len() == 0,
{
    let all = seq![path, name, value] + rest;
    assert(all.skip(3) =~= rest);
    assert(all[0] == path && all[2] == value);
}

/// Without a second side the file is the one side there is, its `a/` taken off.
pub proof fn the_only_side(path: Seq<char>)
    requires
        !has_text("a/"@ + path, " b/"@),
        !has_prefix(path, "a/"@),
    ensures
        file_named("diff --git a/"@ + path) == path,
{
    reveal_strlit("diff --git a/");
    reveal_strlit("diff --git ");
    reveal_strlit("a/");
    reveal_strlit(" b/");
    let line = "diff --git a/"@ + path;
    let names = "a/"@ + path;
    assert(line.skip("diff --git "@.len() as int) =~= names);
    position_from_meaning(names, " b/"@, 0);
    if position(names, " b/"@) is Some {
        assert(occurs_at(names, " b/"@, position(names, " b/"@)->0));
    }
    assert(pieces(names, " b/"@) == seq![names]);
    prefixes_are_taken_off(path, "a/"@);
}

/// What git is asked.
pub proof fn what_git_is_asked(
    base: String,
    head: String,
    sha: String,
    symbol: String,
    remote: String,
    files: Vec<String>,
)
    ensures
        ({
            let range = base@ + ".."@ + head@;
            &&& query_args(Query::RepoRoot) == seq!["rev-parse"@, "--show-toplevel"@]
            &&& query_args(Query::CurrentBranch) == seq!["rev-parse"@, "--abbrev-ref"@, "HEAD"@]
            &&& query_args(Query::RevParse { rev: sha }) == seq!["rev-parse"@, sha@]
            &&& query_args(Query::RefExists { name: sha }) == seq![
                "rev-parse"@,
                "--verify"@,
                "--quiet"@,
                sha@,
            ]
            &&& query_args(Query::Remotes) == seq!["remote"@]
            &&& query_args(Query::RemoteHead { remote }) == seq![
                "symbolic-ref"@,
                "refs/remotes/"@ + remote@ + "/HEAD"@,
            ]
            &&& query_args(Query::MergeBase { a: base, b: head }) == seq![
                "merge-base"@,
                base@,
                head@,
            ]
            &&& query_args(Query::Diff { base, head }) == seq![
                "diff"@,
                "--find-renames"@,
                "--no-color"@,
                range,
            ]
            &&& query_args(Query::DiffIgnoringWhitespace { base, head }) == seq![
                "diff"@,
                "-w"@,
                "--no-color"@,
                range,
            ]
            &&& query_args(Query::CommitPatch { sha }) == seq![
                "diff-tree"@,
                "-p"@,
                "--find-renames"@,
                "--no-color"@,
                "--no-commit-id"@,
                "-r"@,
                sha@,
            ]
            &&& query_args(Query::ChangedFiles { base, head }) == seq![
                "diff"@,
                "--name-only"@,
                range,
            ]
            &&& query_args(Query::Renames { base, head }) == seq![
                "diff"@,
                "--find-renames=100%"@,
                "--name-status"@,
                range,
            ]
            &&& query_args(Query::Grep { symbol }) == seq!["grep"@, "-n"@, "-w"@, "--"@, symbol@]
            &&& query_args(Query::Log { base, head }) == seq![
                "log"@,
                "--format=%H%x00%(trailers:key=Co-Authored-By,valueonly)%x00"@,
                range,
            ]
            &&& query_args(Query::Marks { files }) == seq![
                "check-attr"@,
                "-z"@,
                "linguist-generated"@,
                "--"@,
            ] + texts(files@)
        }),
{
}

} // verus!
