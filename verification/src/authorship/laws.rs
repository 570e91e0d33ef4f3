//! What holds of authorship, whatever the branch.

use vstd::prelude::*;
use crate::authorship::{
    assisted, mode_of, commits_of, hunk_adds, is_assisted, names_assistant, records,
    significant_form, some_hunk_adds, some_patch_adds, word_characters, Mode, Record, Scope,
};
use crate::git::{hunks_of, HunkModel};
use crate::text::chars::is_letter_or_number;
use crate::text::search::{char_position, char_position_unique, has_prefix};
use crate::text::split::{collapsed, lines_of, pieces, trimmed};

verus! {

/// A log lists a commit in each two fields, its hash and its trailers; a blank hash is none.
pub proof fn commits_are_read_one_by_one(
    sha: Seq<char>,
    trailers: Seq<char>,
    rest: Seq<Seq<char>>,
)
    ensures
        records(seq![sha, trailers] + rest) == if trimmed(sha).len() == 0 {
            records(rest)
        } else {
            seq![Record { sha: trimmed(sha), trailers }] + records(rest)
        },
        records(Seq::empty()).len() == 0,
{
    let all = seq![sha, trailers] + rest;
    assert(all[0] == sha && all[1] == trailers);
    assert(all.skip(2) =~= rest);
    assert(Seq::<Record>::empty() + records(rest) =~= records(rest));
}

/// The assisted commits are all those with a trailer line that names the assistant, in order.
pub proof fn every_assisted_commit_is_found(rs: Seq<Record>, assistant: Seq<char>)
    ensures
        assisted(rs, assistant) == rs.filter(
            |r: Record|
                exists|i: int|
                    0 <= i < lines_of(r.trailers).len() && names_assistant(
                        #[trigger] lines_of(r.trailers)[i],
                        assistant,
                    ),
        ).map_values(|r: Record| r.sha),
    decreases rs.len(),
{
    let p = |r: Record|
        exists|i: int|
            0 <= i < lines_of(r.trailers).len() && names_assistant(
                #[trigger] lines_of(r.trailers)[i],
                assistant,
            );
    let f = |r: Record| r.sha;
    if rs.len() == 0 {
        reveal(Seq::filter);
        assert(assisted(rs, assistant) =~= rs.filter(p).map_values(f));
    } else {
        every_assisted_commit_is_found(rs.skip(1), assistant);
        assert(rs =~= seq![rs[0]] + rs.skip(1));
        Seq::filter_distributes_over_add(seq![rs[0]], rs.skip(1), p);
        assert(seq![rs[0]].filter(p) =~= if p(rs[0]) { seq![rs[0]] } else { Seq::empty() }) by {
            reveal(Seq::filter);
            assert(seq![rs[0]].drop_last() =~= Seq::<Record>::empty());
            assert(Seq::<Record>::empty().filter(p) =~= Seq::<Record>::empty());
        }
        assert(is_assisted(rs[0], assistant) == p(rs[0]));
        assert(assisted(rs, assistant) =~= rs.filter(p).map_values(f));
    }
}

/// What the trailers say: nothing where none names the assistant, a squash where there is one
/// commit, and otherwise which commits are the assistant's.
pub proof fn the_mode_is_by_the_trailers(log: Seq<char>, assistant: Seq<char>)
    ensures
        mode_of(log, assistant) == Mode::Unknown <==> forall|k: int, i: int|
            0 <= k < commits_of(log).len() && 0 <= i < lines_of(commits_of(log)[k].trailers).len()
                ==> !names_assistant(#[trigger] lines_of(commits_of(log)[k].trailers)[i], assistant),
        mode_of(log, assistant) == Mode::Squashed ==> commits_of(log).len() == 1,
        mode_of(log, assistant) == Mode::Trailers ==> commits_of(log).len() > 1,
{
    let rs = commits_of(log);
    let p = |r: Record|
        exists|i: int|
            0 <= i < lines_of(r.trailers).len() && names_assistant(
                #[trigger] lines_of(r.trailers)[i],
                assistant,
            );
    every_assisted_commit_is_found(rs, assistant);
    rs.lemma_filter_len(p);
    if rs.filter(p).len() > 0 {
        assert(p(rs.filter(p)[0]));
        assert(rs.filter(p).contains(rs.filter(p)[0]));
        let r = rs.filter(p)[0];
        rs.lemma_filter_contains_rev(p, r);
        let k = choose|k: int| 0 <= k < rs.len() && rs[k] == r;
        let i = choose|i: int|
            0 <= i < lines_of(r.trailers).len() && names_assistant(
                #[trigger] lines_of(r.trailers)[i],
                assistant,
            );
        assert(names_assistant(lines_of(rs[k].trailers)[i], assistant));
    } else {
        assert forall|k: int, i: int|
            0 <= k < rs.len() && 0 <= i < lines_of(rs[k].trailers).len() implies !names_assistant(
            #[trigger] lines_of(rs[k].trailers)[i],
            assistant,
        ) by {
            if names_assistant(lines_of(rs[k].trailers)[i], assistant) {
                assert(p(rs[k]));
                rs.lemma_filter_contains(p, k);
                assert(rs.filter(p).contains(rs[k]));
            }
        }
    }
}

/// A trailer is by the name before its first comma or angle bracket, without the white space
/// around it, and names the assistant where that begins with the assistant's name.
pub proof fn a_trailer_is_by_its_name(name: Seq<char>, c: char, more: Seq<char>, assistant: Seq<char>)
    requires
        c == ',' || c == '<',
        forall|i: int| 0 <= i < name.len() ==> name[i] != ',' && name[i] != '<',
        assistant.len() > 0,
    ensures
        names_assistant(name + seq![c] + more, assistant) <==> has_prefix(trimmed(name), assistant),
        names_assistant(name, assistant) <==> has_prefix(trimmed(name), assistant),
{
    let v = name + seq![c] + more;
    let n = name.len() as int;
    let other = if c == ',' { '<' } else { ',' };
    char_position_unique(v, c, n);
    crate::text::search::char_position_meaning(v, other);
    assert(char_position(v, other) >= n) by {
        let p = char_position(v, other);
        if p < n {
            assert(v[p] == name[p]);
        }
    }
    assert(v.take(n) =~= name);
    char_position_unique(name, ',', n);
    char_position_unique(name, '<', n);
    assert(name.take(n) =~= name);
}

/// A line identifies its place where its words, a blank between each two, make six characters
/// and hold three letters or numbers.
pub proof fn identifying_lines(line: Seq<char>)
    ensures
        significant_form(line) matches Some(norm) ==> norm == collapsed(line),
        significant_form(line) is Some <==> collapsed(line).len() >= 6 && collapsed(line).filter(
            |c: char| is_letter_or_number(c),
        ).len() >= 3,
{
    letters_and_numbers(collapsed(line));
}

proof fn letters_and_numbers(s: Seq<char>)
    ensures
        word_characters(s) == s.filter(|c: char| is_letter_or_number(c)).len(),
    decreases s.len(),
{
    reveal(Seq::filter);
    if s.len() > 0 {
        letters_and_numbers(s.drop_last());
    }
}

/// Where the trailers tell commits apart, a hunk is in scope exactly where it adds, in the same
/// file, a line that identifies its place and that an assisted commit adds too.
pub proof fn a_hunk_is_in_scope_by_its_lines(scope: Scope, patches: Seq<Seq<char>>, h: HunkModel)
    requires
        scope.mode == Mode::Trailers,
        forall|p: (Seq<char>, Seq<char>)|
            #[trigger] scope.lines().contains(p) <==> scope.mode == Mode::Trailers
                && some_patch_adds(patches, p),
    ensures
        scope.in_scope(h) <==> exists|m: int, i: int, j: int, k: int|
            0 <= m < h.added.len() && 0 <= i < patches.len() && 0 <= j < hunks_of(patches[i]).len()
                && 0 <= k < hunks_of(patches[i])[j].added.len() && hunks_of(patches[i])[j].file
                == h.file && significant_form(h.added[m]) is Some && significant_form(h.added[m])
                == significant_form(#[trigger] hunks_of(patches[i])[j].added[k]) && (
            #[trigger] h.added[m]).len() >= 0,
{
    if scope.in_scope(h) {
        let m = choose|m: int|
            0 <= m < h.added.len() && scope.holds_line(h.file, #[trigger] h.added[m]);
        let p = (h.file, significant_form(h.added[m])->0);
        assert(some_patch_adds(patches, p));
        let i = choose|i: int|
            0 <= i < patches.len() && some_hunk_adds(hunks_of(#[trigger] patches[i]), p);
        let hs = hunks_of(patches[i]);
        let j = choose|j: int| 0 <= j < hs.len() && hunk_adds(#[trigger] hs[j], p);
        let k = choose|k: int|
            0 <= k < hs[j].added.len() && significant_form(#[trigger] hs[j].added[k]) == Some(p.1);
        assert(significant_form(h.added[m]) == significant_form(hs[j].added[k]));
        assert(hunks_of(patches[i])[j].added[k] == hs[j].added[k]);
    }
    if exists|m: int, i: int, j: int, k: int|
        0 <= m < h.added.len() && 0 <= i < patches.len() && 0 <= j < hunks_of(patches[i]).len()
            && 0 <= k < hunks_of(patches[i])[j].added.len() && hunks_of(patches[i])[j].file == h.file
            && significant_form(h.added[m]) is Some && significant_form(h.added[m])
            == significant_form(#[trigger] hunks_of(patches[i])[j].added[k]) && (
        #[trigger] h.added[m]).len() >= 0 {
        let (m, i, j, k) = choose|m: int, i: int, j: int, k: int|
            0 <= m < h.added.len() && 0 <= i < patches.len() && 0 <= j < hunks_of(patches[i]).len()
                && 0 <= k < hunks_of(patches[i])[j].added.len() && hunks_of(patches[i])[j].file
                == h.file && significant_form(h.added[m]) is Some && significant_form(h.added[m])
                == significant_form(#[trigger] hunks_of(patches[i])[j].added[k]) && (
            #[trigger] h.added[m]).len() >= 0;
        let p = (h.file, significant_form(h.added[m])->0);
        let hs = hunks_of(patches[i]);
        assert(significant_form(hs[j].added[k]) == Some(p.1));
        assert(hunk_adds(hs[j], p));
        assert(some_hunk_adds(hs, p));
        assert(some_patch_adds(patches, p));
        assert(scope.lines().contains(p));
        assert(scope.holds_line(h.file, h.added[m]));
    }
}

/// A log is read field by field, each ended by a null character.
pub proof fn fields_end_at_nulls(log: Seq<char>)
    ensures
        commits_of(log) == records(pieces(log, seq!['\0'])),
        Mode::Trailers.name() == "trailers"@,
        Mode::Squashed.name() == "squashed"@,
        Mode::Unknown.name() == "unknown"@,
{
    reveal_strlit("\u{0}");
    assert("\u{0}"@ =~= seq!['\0']);
}

/// The last commit may end with its hash: then it has no trailers.
pub proof fn a_commit_without_trailers(sha: Seq<char>)
    requires
        trimmed(sha).len() > 0,
    ensures
        records(seq![sha]) == seq![Record { sha: trimmed(sha), trailers: Seq::empty() }],
{
    reveal_with_fuel(records, 2);
    assert(seq![sha].skip(1) =~= Seq::<Seq<char>>::empty());
    assert(records(seq![sha]) =~= seq![Record { sha: trimmed(sha), trailers: Seq::empty() }]);
}

} // verus!
