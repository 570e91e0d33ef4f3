//! What holds of triage, whatever the change.

use vstd::prelude::*;
use crate::git::HunkModel;
use crate::text::number::decimal;
use crate::text::search::{has_one_of, has_suffix, has_suffix_of, has_text, occurs_at};
use crate::triage::{
    all_added, generated, generated_dirs, generated_endings, left_out, most_questions, semantic,
    semantic_files, semantic_tokens, skip_reason, some_semantic,
};

verus! {

proof fn ends_so(p: Seq<char>, e: Seq<char>)
    ensures
        has_suffix(p + e, e),
{
    assert((p + e).subrange(p.len() as int, (p + e).len() as int) =~= e);
}

proof fn holds_so(p: Seq<char>, t: Seq<char>, q: Seq<char>)
    ensures
        has_text(p + t + q, t),
{
    assert((p + t + q).subrange(p.len() as int, (p.len() + t.len()) as int) =~= t);
    assert(occurs_at(p + t + q, t, p.len() as int));
}

/// Lock files, minified files and source maps are generated wherever they lie.
pub proof fn generated_by_their_ending(p: Seq<char>)
    ensures
        generated(p + "Cargo.lock"@),
        generated(p + "package-lock.json"@),
        generated(p + "yarn.lock"@),
        generated(p + "pnpm-lock.yaml"@),
        generated(p + "Gemfile.lock"@),
        generated(p + "composer.lock"@),
        generated(p + "poetry.lock"@),
        generated(p + "go.sum"@),
        generated(p + ".min.js"@),
        generated(p + ".min.css"@),
        generated(p + ".map"@),
{
    let es = generated_endings();
    assert forall|i: int| 0 <= i < es.len() implies generated(p + #[trigger] es[i]) by {
        ends_so(p, es[i]);
    }
    assert(es[0] == "Cargo.lock"@ && es[1] == "package-lock.json"@ && es[2] == "yarn.lock"@);
    assert(es[3] == "pnpm-lock.yaml"@ && es[4] == "Gemfile.lock"@ && es[5] == "composer.lock"@);
    assert(es[6] == "poetry.lock"@ && es[7] == "go.sum"@ && es[8] == ".min.js"@);
    assert(es[9] == ".min.css"@ && es[10] == ".map"@);
}

/// What lies below one of these directories is generated or vendored, at whatever depth.
pub proof fn generated_by_their_directory(p: Seq<char>, q: Seq<char>)
    ensures
        generated(p + "vendor/"@ + q),
        generated(p + "node_modules/"@ + q),
        generated(p + "dist/"@ + q),
        generated(p + "build/"@ + q),
        generated(p + "target/"@ + q),
{
    let ds = generated_dirs();
    assert forall|i: int| 0 <= i < ds.len() implies generated(p + #[trigger] ds[i] + q) by {
        holds_so(p, ds[i], q);
    }
    assert(ds[0] == "vendor/"@ && ds[1] == "node_modules/"@ && ds[2] == "dist/"@);
    assert(ds[3] == "build/"@ && ds[4] == "target/"@);
}

/// Nothing else is.
pub proof fn nothing_else_is_generated(path: Seq<char>)
    requires
        !has_suffix(path, "Cargo.lock"@),
        !has_suffix(path, "package-lock.json"@),
        !has_suffix(path, "yarn.lock"@),
        !has_suffix(path, "pnpm-lock.yaml"@),
        !has_suffix(path, "Gemfile.lock"@),
        !has_suffix(path, "composer.lock"@),
        !has_suffix(path, "poetry.lock"@),
        !has_suffix(path, "go.sum"@),
        !has_suffix(path, ".min.js"@),
        !has_suffix(path, ".min.css"@),
        !has_suffix(path, ".map"@),
        !has_text(path, "vendor/"@),
        !has_text(path, "node_modules/"@),
        !has_text(path, "dist/"@),
        !has_text(path, "build/"@),
        !has_text(path, "target/"@),
    ensures
        !generated(path),
        forall|marked: Seq<Seq<char>>|
            #[trigger] left_out(path, marked) <==> exists|i: int|
                0 <= i < marked.len() && marked[i] == path,
{
    if has_suffix_of(path, generated_endings()) {
        let i = choose|i: int|
            0 <= i < generated_endings().len() && has_suffix(path, #[trigger] generated_endings()[i]);
        assert(has_suffix(path, generated_endings()[i]));
    }
    if has_one_of(path, generated_dirs()) {
        let i = choose|i: int|
            0 <= i < generated_dirs().len() && has_text(path, #[trigger] generated_dirs()[i]);
        assert(has_text(path, generated_dirs()[i]));
    }
}

/// Each of these makes a line carry control flow or a signature, wherever it stands.
pub proof fn control_flow_is_seen(p: Seq<char>, q: Seq<char>)
    ensures
        semantic(p + "if "@ + q),
        semantic(p + "for "@ + q),
        semantic(p + "while "@ + q),
        semantic(p + "match "@ + q),
        semantic(p + "return"@ + q),
        semantic(p + "fn "@ + q),
        semantic(p + "def "@ + q),
        semantic(p + "async"@ + q),
        semantic(p + "class "@ + q),
        semantic(p + "func "@ + q),
        semantic(p + "=>"@ + q),
        semantic(p + "&&"@ + q),
        semantic(p + "||"@ + q),
        semantic(p + "case "@ + q),
        semantic(p + "rescue"@ + q),
        semantic(p + "raise"@ + q),
        semantic(p + "throw"@ + q),
        semantic(p + "catch"@ + q),
{
    let ts = semantic_tokens();
    assert forall|i: int| 0 <= i < ts.len() implies semantic(p + #[trigger] ts[i] + q) by {
        holds_so(p, ts[i], q);
    }
    assert(ts[0] == "if "@ && ts[1] == "for "@ && ts[2] == "while "@ && ts[3] == "match "@);
    assert(ts[4] == "return"@ && ts[5] == "fn "@ && ts[6] == "def "@ && ts[7] == "async"@);
    assert(ts[8] == "class "@ && ts[9] == "func "@ && ts[10] == "=>"@ && ts[11] == "&&"@);
    assert(ts[12] == "||"@ && ts[13] == "case "@ && ts[14] == "rescue"@ && ts[15] == "raise"@);
    assert(ts[16] == "throw"@ && ts[17] == "catch"@);
}

/// A line without any of these carries neither.
pub proof fn plain_lines_are_plain(line: Seq<char>)
    requires
        !has_text(line, "if "@),
        !has_text(line, "for "@),
        !has_text(line, "while "@),
        !has_text(line, "match "@),
        !has_text(line, "return"@),
        !has_text(line, "fn "@),
        !has_text(line, "def "@),
        !has_text(line, "async"@),
        !has_text(line, "class "@),
        !has_text(line, "func "@),
        !has_text(line, "=>"@),
        !has_text(line, "&&"@),
        !has_text(line, "||"@),
        !has_text(line, "case "@),
        !has_text(line, "rescue"@),
        !has_text(line, "raise"@),
        !has_text(line, "throw"@),
        !has_text(line, "catch"@),
    ensures
        !semantic(line),
{
    if semantic(line) {
        let i = choose|i: int|
            0 <= i < semantic_tokens().len() && has_text(line, #[trigger] semantic_tokens()[i]);
        assert(has_text(line, semantic_tokens()[i]));
    }
}

/// What hunks add is what each of them adds, one after the other.
pub proof fn every_added_line_counts(a: Seq<HunkModel>, b: Seq<HunkModel>, h: HunkModel)
    ensures
        all_added(a + b) == all_added(a) + all_added(b),
        all_added(seq![h]) == h.added,
    decreases b.len(),
{
    reveal_with_fuel(all_added, 2);
    assert(seq![h].drop_last() =~= Seq::<HunkModel>::empty());
    assert(all_added(seq![h]) =~= h.added);
    if b.len() == 0 {
        assert(a + b =~= a);
        assert(all_added(a + b) =~= all_added(a) + all_added(b));
    } else {
        every_added_line_counts(a, b.drop_last(), h);
        assert((a + b).drop_last() =~= a + b.drop_last());
        assert((a + b).last() == b.last());
        assert(all_added(a + b) =~= all_added(a) + all_added(b));
    }
}

/// A change is quizzed exactly where it touches a file that someone wrote, is more than white
/// space and renames, and adds ten lines or one with control flow or a signature.
pub proof fn what_is_quizzed_at_all(
    files: Seq<Seq<char>>,
    marked: Seq<Seq<char>>,
    whitespace_only: bool,
    pure_renames: bool,
    hunks: Seq<HunkModel>,
)
    ensures
        skip_reason(files, marked, whitespace_only, pure_renames, hunks) is None <==> {
            &&& exists|i: int|
                0 <= i < files.len() && !generated(#[trigger] files[i]) && !marked.contains(files[i])
            &&& !whitespace_only
            &&& !pure_renames
            &&& all_added(hunks).len() >= 10 || exists|i: int|
                0 <= i < all_added(hunks).len() && semantic(#[trigger] all_added(hunks)[i])
        },
{
    if exists|i: int|
        0 <= i < files.len() && !generated(#[trigger] files[i]) && !marked.contains(files[i]) {
        let i = choose|i: int|
            0 <= i < files.len() && !generated(#[trigger] files[i]) && !marked.contains(files[i]);
        assert(!left_out(files[i], marked));
    } else {
        assert forall|i: int| 0 <= i < files.len() implies left_out(#[trigger] files[i], marked) by {}
    }
}

/// How many questions a change is worth: of the hunks that carry control flow or a signature,
/// each file counts for one and each further hunk in a file for half; half of that, and two,
/// from three to six.
pub proof fn the_band_follows_the_areas(hunks: Seq<HunkModel>)
    ensures
        ({
            let busy = hunks.filter(
                |h: HunkModel| exists|i: int| 0 <= i < h.added.len() && semantic(#[trigger] h.added[i]),
            );
            let distinct = busy.map_values(|h: HunkModel| h.file).to_set().len();
            let worth = 2 + (distinct + (busy.len() - distinct) / 2) / 2;
            most_questions(hunks) == if worth < 3 {
                3
            } else if worth > 6 {
                6
            } else {
                worth
            }
        }),
{
    busy_files(hunks);
}

proof fn busy_files(hunks: Seq<HunkModel>)
    ensures
        semantic_files(hunks) == hunks.filter(
            |h: HunkModel| exists|i: int| 0 <= i < h.added.len() && semantic(#[trigger] h.added[i]),
        ).map_values(|h: HunkModel| h.file),
    decreases hunks.len(),
{
    reveal(Seq::filter);
    let p = |h: HunkModel| exists|i: int| 0 <= i < h.added.len() && semantic(#[trigger] h.added[i]);
    let f = |h: HunkModel| h.file;
    if hunks.len() > 0 {
        busy_files(hunks.drop_last());
        let sub = hunks.drop_last().filter(p);
        assert(sub.push(hunks.last()).map_values(f) =~= sub.map_values(f).push(f(hunks.last())));
        assert(some_semantic(hunks.last().added) == p(hunks.last()));
    }
    assert(semantic_files(hunks) =~= hunks.filter(p).map_values(f));
}

/// Why a change is not quizzed, the first of the reasons that holds.
pub proof fn why_nothing_is_asked(
    files: Seq<Seq<char>>,
    marked: Seq<Seq<char>>,
    whitespace_only: bool,
    pure_renames: bool,
    hunks: Seq<HunkModel>,
)
    ensures
        ({
            let r = skip_reason(files, marked, whitespace_only, pure_renames, hunks);
            let written = exists|i: int|
                0 <= i < files.len() && !generated(#[trigger] files[i]) && !marked.contains(files[i]);
            &&& files.len() == 0 ==> r == Some("no files changed"@)
            &&& files.len() > 0 && !written ==> r == Some("only generated or vendored files"@)
            &&& written && whitespace_only ==> r == Some("whitespace only"@)
            &&& written && !whitespace_only && pure_renames ==> r == Some(
                "pure renames, no content change"@,
            )
            &&& written && !whitespace_only && !pure_renames && r is Some ==> r == Some(
                decimal(all_added(hunks).len())
                    + " added lines, no control flow or signature change"@,
            )
        }),
{
    if exists|i: int|
        0 <= i < files.len() && !generated(#[trigger] files[i]) && !marked.contains(files[i]) {
        let i = choose|i: int|
            0 <= i < files.len() && !generated(#[trigger] files[i]) && !marked.contains(files[i]);
        assert(!left_out(files[i], marked));
    } else {
        assert forall|i: int| 0 <= i < files.len() implies left_out(#[trigger] files[i], marked) by {}
    }
}

} // verus!
