//! Context gathered from static repository state only.
//!
//! The diff alone does not answer two kinds of question: what calls the changed
//! code, and which command really exists. None of this is the coding session's
//! transcript, so the generator cannot inherit its reasoning.

use vstd::prelude::*;
use vstd::string::StringExecFns;
use crate::context::run::{invocation, test_invocation, tree_names_script};
use crate::context::shadow::hunk_reports;
use crate::context::tree::Tree;
use crate::git::{grep_hits, grep_symbol, hunk_models, Hunk, HunkModel};
use crate::text::chars::{same, substring, to_chars};
use crate::text::number::{leading_number, read_leading};
use crate::text::search::{char_position, contains, has_text, position, position_from_meaning, occurs_at, seek, seek_char};
use crate::text::split::{
    at_most, byte_len, note, owned, pieces, split, strs, texts, texts_push, utf8_length,
};
use crate::text::words::{has_any_word, has_some_word, name_at, name_length};
use crate::triage::{all_added, collect_added};

pub mod laws;
pub mod run;
pub mod shadow;
pub mod tree;

pub use crate::context::run::{cargo_bin_name, readme_usage, run_invocation, test_command};
pub use crate::context::shadow::shadowed;
pub use crate::text::words::has_word;

verus! {

// ---------------------------------------------------------------- symbols

/// What opens a definition.
pub open spec fn definers() -> Seq<Seq<char>> {
    seq![
        "fn "@,
        "def "@,
        "class "@,
        "func "@,
        "struct "@,
        "enum "@,
        "trait "@,
        "impl "@,
        "const "@,
        "type "@,
        "interface "@,
        "module "@,
    ]
}

/// The name that follows the first `definer` in a line, where it has three bytes
/// or more.
pub open spec fn defined_name(line: Seq<char>, definer: Seq<char>) -> Option<Seq<char>> {
    match position(line, definer) {
        Some(i) => {
            let rest = line.skip(i + definer.len());
            let name = rest.take(name_length(rest));
            if utf8_length(name) >= 3 {
                Some(name)
            } else {
                None
            }
        },
        None => None,
    }
}

/// The names that a line defines, by the first so many of `ds`, in their order.
pub open spec fn names_in(line: Seq<char>, ds: Seq<Seq<char>>) -> Seq<Seq<char>>
    decreases ds.len(),
{
    if ds.len() == 0 {
        Seq::empty()
    } else {
        match defined_name(line, ds.last()) {
            Some(name) => names_in(line, ds.drop_last()).push(name),
            None => names_in(line, ds.drop_last()),
        }
    }
}

/// The names that lines define, in order.
pub open spec fn defined_names(ls: Seq<Seq<char>>) -> Seq<Seq<char>>
    decreases ls.len(),
{
    if ls.len() == 0 {
        Seq::empty()
    } else {
        defined_names(ls.drop_last()) + names_in(ls.last(), definers())
    }
}

/// A list with everything that was there before left out.
pub open spec fn deduplicated(s: Seq<Seq<char>>) -> Seq<Seq<char>>
    decreases s.len(),
{
    if s.len() == 0 {
        Seq::empty()
    } else {
        let before = deduplicated(s.drop_last());
        if before.contains(s.last()) {
            before
        } else {
            before.push(s.last())
        }
    }
}

/// The first twelve names that a change defines, each once.
pub open spec fn symbols_of(hunks: Seq<HunkModel>) -> Seq<Seq<char>> {
    at_most(deduplicated(defined_names(all_added(hunks))), 12)
}

/// No name is listed twice.
pub proof fn symbols_are_distinct(hunks: Seq<HunkModel>)
    ensures
        symbols_of(hunks).no_duplicates(),
        symbols_of(hunks).len() <= 12,
{
    deduplicated_is_distinct(defined_names(all_added(hunks)));
}

proof fn deduplicated_is_distinct(s: Seq<Seq<char>>)
    ensures
        deduplicated(s).no_duplicates(),
    decreases s.len(),
{
    if s.len() > 0 {
        deduplicated_is_distinct(s.drop_last());
        let before = deduplicated(s.drop_last());
        if !before.contains(s.last()) {
            let after = before.push(s.last());
            assert forall|i: int, j: int|
                0 <= i < after.len() && 0 <= j < after.len() && i != j implies after[i]
                != after[j] by {
                if i < before.len() {
                    assert(before.contains(before[i]));
                }
                if j < before.len() {
                    assert(before.contains(before[j]));
                }
            }
        }
    }
}

/// The name that follows the first `definer` in a line, where it is long enough.
fn read_defined_name(line: &str, definer: &str) -> (r: Option<String>)
    ensures
        match r {
            Some(name) => defined_name(line@, definer@) == Some(name@),
            None => defined_name(line@, definer@) is None,
        },
{
    let cs = to_chars(line);
    let ds = to_chars(definer);
    proof {
        position_from_meaning(line@, definer@, 0);
    }
    match seek(&cs, &ds, 0) {
        None => None,
        Some(i) => {
            assert(occurs_at(line@, definer@, i as int));
            let n: usize = cs.len();
            let from: usize = i + ds.len();
            let name = name_at(&cs, from);
            if byte_len(name.as_str()) >= 3 {
                Some(name)
            } else {
                None
            }
        },
    }
}

/// The names that a change defines, at most twelve, each once. Crude on purpose: a
/// missed symbol costs one weaker question, a wrong one costs nothing.
pub fn changed_symbols(hunks: &[Hunk]) -> (r: Vec<String>)
    ensures
        texts(r@) == symbols_of(hunk_models(hunks@)),
{
    broadcast use texts_push;

    let definer_list: [&str; 12] = [
        "fn ",
        "def ",
        "class ",
        "func ",
        "struct ",
        "enum ",
        "trait ",
        "impl ",
        "const ",
        "type ",
        "interface ",
        "module ",
    ];
    let ghost ds = definers();
    proof {
        assert(strs(definer_list@) =~= ds);
    }
    let added = collect_added(hunks);
    let ghost ls = texts(added@);
    let ghost mut names: Seq<Seq<char>> = Seq::empty();
    let mut out: Vec<String> = Vec::new();
    let mut i: usize = 0;
    proof {
        assert(ls.take(0) =~= Seq::empty());
        assert(texts(out@) =~= deduplicated(names));
    }
    while i < added.len()
        invariant
            i <= added@.len(),
            ls == texts(added@),
            ds == definers(),
            strs(definer_list@) == ds,
            names == defined_names(ls.take(i as int)),
            texts(out@) == deduplicated(names),
        decreases added@.len() - i,
    {
        let ghost before = names;
        let ghost line = ls[i as int];
        let mut k: usize = 0;
        proof {
            assert(ds.take(0) =~= Seq::empty());
            assert(names =~= before + names_in(line, ds.take(0)));
        }
        while k < definer_list.len()
            invariant
                i < added@.len(),
                k <= definer_list@.len(),
                ls == texts(added@),
                line == ls[i as int],
                strs(definer_list@) == ds,
                names == before + names_in(line, ds.take(k as int)),
                texts(out@) == deduplicated(names),
            decreases definer_list@.len() - k,
        {
            proof {
                assert(ds.take(k + 1).drop_last() =~= ds.take(k as int));
                assert(ds.take(k + 1).last() == strs(definer_list@)[k as int]);
            }
            if let Some(name) = read_defined_name(added[i].as_str(), definer_list[k]) {
                proof {
                    let more = names.push(name@);
                    assert(more =~= before + names_in(line, ds.take(k + 1)));
                    assert(more.drop_last() =~= names);
                    names = more;
                }
                let fresh = note(&mut out, name.as_str());
            }
            k += 1;
        }
        proof {
            assert(ds.take(k as int) =~= ds);
            assert(ls.take(i + 1).drop_last() =~= ls.take(i as int));
        }
        i += 1;
    }
    proof {
        assert(ls.take(i as int) =~= ls);
    }
    truncate_texts(&mut out, 12);
    out
}

/// Keeps the first `n` of a list.
pub(crate) fn truncate_texts(list: &mut Vec<String>, n: usize)
    ensures
        texts(final(list)@) == at_most(texts(old(list)@), n as nat),
{
    let ghost before = list@;
    if list.len() > n {
        list.truncate(n);
        assert(texts(list@) =~= texts(before).take(n as int));
    }
}

// ---------------------------------------------------------------- grep

/// What `git grep` printed for a symbol; nothing where it reported failure.
pub struct Grep {
    pub symbol: String,
    pub out: Option<String>,
}

/// What the first search for `symbol` printed.
pub open spec fn grep_output(greps: Seq<Grep>, symbol: Seq<char>) -> Option<Seq<char>>
    decreases greps.len(),
{
    if greps.len() == 0 {
        None
    } else if greps[0].symbol@ == symbol {
        match greps[0].out {
            Some(text) => Some(text@),
            None => None,
        }
    } else {
        grep_output(greps.skip(1), symbol)
    }
}

/// The hits for `symbol` outside the files in `exclude`.
pub open spec fn hits_for(greps: Seq<Grep>, symbol: Seq<char>, exclude: Seq<Seq<char>>) -> Seq<
    Seq<char>,
> {
    match grep_output(greps, symbol) {
        Some(text) => grep_hits(text, exclude),
        None => Seq::empty(),
    }
}

fn find_hits(greps: &[Grep], symbol: &str, exclude: &[String]) -> (r: Vec<String>)
    ensures
        texts(r@) == hits_for(greps@, symbol@, texts(exclude@)),
{
    let mut i: usize = 0;
    proof {
        assert(greps@.skip(0) =~= greps@);
    }
    while i < greps.len()
        invariant
            i <= greps@.len(),
            grep_output(greps@, symbol@) == grep_output(greps@.skip(i as int), symbol@),
        decreases greps@.len() - i,
    {
        proof {
            assert(greps@.skip(i as int).skip(1) =~= greps@.skip(i + 1));
        }
        if same(greps[i].symbol.as_str(), symbol) {
            return match &greps[i].out {
                Some(text) => grep_symbol(Some(text.as_str()), exclude),
                None => grep_symbol(None, exclude),
            };
        }
        i += 1;
    }
    grep_symbol(None, exclude)
}

/// The files that a list of hunks touches, one entry for each hunk.
pub open spec fn hunk_files(hunks: Seq<HunkModel>) -> Seq<Seq<char>> {
    Seq::new(hunks.len(), |i: int| hunks[i].file)
}

/// What is said of the call sites of `symbol`: nothing where there are none, else a
/// heading and at most eight of them.
pub open spec fn call_site_report(
    greps: Seq<Grep>,
    symbol: Seq<char>,
    exclude: Seq<Seq<char>>,
) -> Seq<Seq<char>> {
    let hits = hits_for(greps, symbol, exclude);
    if hits.len() == 0 {
        Seq::empty()
    } else {
        seq!["# call sites for `"@ + symbol + "`"@] + at_most(hits, 8)
    }
}

/// What is said of the call sites of `symbols`, one after the other.
pub open spec fn call_site_reports(
    greps: Seq<Grep>,
    symbols: Seq<Seq<char>>,
    exclude: Seq<Seq<char>>,
) -> Seq<Seq<char>>
    decreases symbols.len(),
{
    if symbols.len() == 0 {
        Seq::empty()
    } else {
        call_site_reports(greps, symbols.drop_last(), exclude) + call_site_report(
            greps,
            symbols.last(),
            exclude,
        )
    }
}

/// Adds the texts of `more` to the end of `list`.
pub(crate) fn extend_texts(list: &mut Vec<String>, more: &[String])
    ensures
        texts(final(list)@) == texts(old(list)@) + texts(more@),
{
    broadcast use texts_push;

    let ghost before = texts(list@);
    let ghost ms = texts(more@);
    let mut i: usize = 0;
    proof {
        assert(before + ms.take(0) =~= before);
    }
    while i < more.len()
        invariant
            i <= more@.len(),
            ms == texts(more@),
            texts(list@) == before + ms.take(i as int),
        decreases more@.len() - i,
    {
        proof {
            assert((before + ms.take(i as int)).push(ms[i as int]) =~= before + ms.take(i + 1));
        }
        list.push(more[i].clone());
        i += 1;
    }
    proof {
        assert(ms.take(i as int) =~= ms);
    }
}

/// The files of a list of hunks.
fn files_of(hunks: &[Hunk]) -> (r: Vec<String>)
    ensures
        texts(r@) == hunk_files(hunk_models(hunks@)),
{
    let mut out: Vec<String> = Vec::new();
    let mut i: usize = 0;
    while i < hunks.len()
        invariant
            i <= hunks@.len(),
            out@.len() == i,
            forall|j: int| 0 <= j < i ==> out@[j]@ == hunks@[j].file@,
        decreases hunks@.len() - i,
    {
        out.push(hunks[i].file.clone());
        i += 1;
    }
    assert(texts(out@) =~= hunk_files(hunk_models(hunks@)));
    out
}

/// Call sites for the changed symbols, the changed files themselves left out: the
/// point is what elsewhere assumes. `greps` holds what was found for each symbol.
pub fn call_sites(hunks: &[Hunk], greps: &[Grep]) -> (r: Vec<String>)
    ensures
        texts(r@) == at_most(
            call_site_reports(
                greps@,
                symbols_of(hunk_models(hunks@)),
                hunk_files(hunk_models(hunks@)),
            ),
            80,
        ),
{
    broadcast use texts_push;

    let changed = files_of(hunks);
    let symbols = changed_symbols(hunks);
    let ghost ss = texts(symbols@);
    let ghost ex = texts(changed@);
    let mut out: Vec<String> = Vec::new();
    let mut i: usize = 0;
    proof {
        assert(ss.take(0) =~= Seq::empty());
        assert(texts(out@) =~= call_site_reports(greps@, ss.take(0), ex));
    }
    while i < symbols.len()
        invariant
            i <= symbols@.len(),
            ss == texts(symbols@),
            ex == texts(changed@),
            texts(out@) == call_site_reports(greps@, ss.take(i as int), ex),
        decreases symbols@.len() - i,
    {
        let symbol = symbols[i].as_str();
        let ghost before = texts(out@);
        let mut hits = find_hits(greps, symbol, &changed);
        proof {
            assert(ss.take(i + 1).drop_last() =~= ss.take(i as int));
            assert(ss.take(i + 1).last() == symbol@);
            assert(texts(hits@).len() == hits@.len());
        }
        if hits.len() > 0 {
            let heading = "# call sites for `".to_owned().concat(symbol).concat("`");
            let ghost head = heading@;
            truncate_texts(&mut hits, 8);
            out.push(heading);
            extend_texts(&mut out, &hits);
            proof {
                assert(before.push(head) + texts(hits@) =~= before + (seq![head] + texts(hits@)));
            }
        } else {
            assert(before + call_site_report(greps@, symbol@, ex) =~= before);
        }
        i += 1;
    }
    proof {
        assert(ss.take(i as int) =~= ss);
    }
    truncate_texts(&mut out, 80);
    out
}

// ---------------------------------------------------------------- surfaces

/// What marks a line that routes or dispatches.
pub open spec fn surface_markers() -> Seq<Seq<char>> {
    seq![
        "route"@,
        "routes"@,
        "get"@,
        "post"@,
        "put"@,
        "patch"@,
        "delete"@,
        "resources"@,
        "namespace"@,
        "scope"@,
        "Router"@,
        "Route"@,
        "path"@,
        "url"@,
        "endpoint"@,
        "handler"@,
        "Subcommand"@,
        "subcommand"@,
        "command"@,
        "Command"@,
        "KeyCode"@,
        "on_key"@,
        "addEventListener"@,
        "listen"@,
        "bind"@,
        "mount"@,
        "register"@,
        "dispatch"@,
        "menu"@,
        "before_action"@,
    ]
}

/// Whether a line declares `symbol`.
pub open spec fn declares_symbol(line: Seq<char>, symbol: Seq<char>) -> bool {
    exists|i: int| 0 <= i < definers().len() && has_text(line, #[trigger] definers()[i] + symbol)
}

/// A line that declares the symbol is where it lives, not a way to reach it.
pub fn defines(line: &str, symbol: &str) -> (r: bool)
    ensures
        r == declares_symbol(line@, symbol@),
{
    let definer_list: [&str; 12] = [
        "fn ",
        "def ",
        "class ",
        "func ",
        "struct ",
        "enum ",
        "trait ",
        "impl ",
        "const ",
        "type ",
        "interface ",
        "module ",
    ];
    let ghost ds = definers();
    proof {
        assert(strs(definer_list@) =~= ds);
    }
    let mut i: usize = 0;
    while i < definer_list.len()
        invariant
            i <= definer_list@.len(),
            ds == definers(),
            strs(definer_list@) == ds,
            forall|j: int| 0 <= j < i ==> !has_text(line@, #[trigger] ds[j] + symbol@),
        decreases definer_list@.len() - i,
    {
        let declared = definer_list[i].to_owned().concat(symbol);
        assert(declared@ == ds[i as int] + symbol@);
        if contains(line, declared.as_str()) {
            assert(has_text(line@, definers()[i as int] + symbol@));
            return true;
        }
        i += 1;
    }
    false
}

/// The code of a line of `git grep -n`: what follows its file and line number.
pub open spec fn code_part(line: Seq<char>) -> Seq<char> {
    let a = char_position(line, ':');
    if a >= line.len() {
        line
    } else {
        let rest = line.skip(a + 1);
        let b = char_position(rest, ':');
        if b >= rest.len() {
            line
        } else {
            rest.skip(b + 1)
        }
    }
}

/// Whether one of `markers` stands in the code of a hit as a word of its own. The
/// file and line in front of it are no part of the code, and a path like
/// `src/routes/mod.rs` would otherwise vouch for every hit in it.
pub fn has_marker(line: &str, markers: &[&str]) -> (r: bool)
    requires
        forall|i: int| 0 <= i < markers@.len() ==> strs(markers@)[i].len() > 0,
    ensures
        r == has_some_word(code_part(line@), strs(markers@)),
{
    let cs = to_chars(line);
    let n: usize = cs.len();
    let a: usize = seek_char(&cs, ':');
    let mut code = line.to_owned();
    if a < n {
        let rest = vstd::slice::slice_subrange(&cs, a + 1, n);
        proof {
            assert(rest@ =~= line@.skip(a + 1));
        }
        let b: usize = seek_char(rest, ':');
        if b < rest.len() {
            code = substring(rest, b + 1, rest.len());
            proof {
                assert(code@ =~= rest@.skip(b + 1));
            }
        }
    }
    has_any_word(code.as_str(), markers)
}

/// Whether a hit reaches `symbol` rather than declares it.
pub open spec fn reaches(symbol: Seq<char>) -> spec_fn(Seq<char>) -> bool {
    |line: Seq<char>|
        !declares_symbol(line, symbol) && has_some_word(code_part(line), surface_markers())
}

/// What is said of the ways to `symbol`: nothing where there are none, else a heading
/// and at most four of them.
pub open spec fn surface_report(greps: Seq<Grep>, symbol: Seq<char>) -> Seq<Seq<char>> {
    let ways = at_most(hits_for(greps, symbol, Seq::empty()).filter(reaches(symbol)), 4);
    if ways.len() == 0 {
        Seq::empty()
    } else {
        seq!["# `"@ + symbol + "` is reachable through"@] + ways
    }
}

/// What is said of the ways to `symbols`, one after the other.
pub open spec fn surface_reports(greps: Seq<Grep>, symbols: Seq<Seq<char>>) -> Seq<Seq<char>>
    decreases symbols.len(),
{
    if symbols.len() == 0 {
        Seq::empty()
    } else {
        surface_reports(greps, symbols.drop_last()) + surface_report(greps, symbols.last())
    }
}

/// Whether a hit reaches `symbol` rather than declares it.
fn reaches_symbol(line: &str, symbol: &str) -> (r: bool)
    ensures
        r == reaches(symbol@)(line@),
{
    let markers: [&str; 30] = [
        "route",
        "routes",
        "get",
        "post",
        "put",
        "patch",
        "delete",
        "resources",
        "namespace",
        "scope",
        "Router",
        "Route",
        "path",
        "url",
        "endpoint",
        "handler",
        "Subcommand",
        "subcommand",
        "command",
        "Command",
        "KeyCode",
        "on_key",
        "addEventListener",
        "listen",
        "bind",
        "mount",
        "register",
        "dispatch",
        "menu",
        "before_action",
    ];
    proof {
        assert(strs(markers@) =~= surface_markers());
        markers_not_empty();
    }
    !defines(line, symbol) && has_marker(line, &markers)
}

proof fn markers_not_empty()
    ensures
        forall|i: int| 0 <= i < surface_markers().len() ==> (#[trigger] surface_markers()[i]).len() > 0,
{
    reveal_strlit("route");
    reveal_strlit("routes");
    reveal_strlit("get");
    reveal_strlit("post");
    reveal_strlit("put");
    reveal_strlit("patch");
    reveal_strlit("delete");
    reveal_strlit("resources");
    reveal_strlit("namespace");
    reveal_strlit("scope");
    reveal_strlit("Router");
    reveal_strlit("Route");
    reveal_strlit("path");
    reveal_strlit("url");
    reveal_strlit("endpoint");
    reveal_strlit("handler");
    reveal_strlit("Subcommand");
    reveal_strlit("subcommand");
    reveal_strlit("command");
    reveal_strlit("Command");
    reveal_strlit("KeyCode");
    reveal_strlit("on_key");
    reveal_strlit("addEventListener");
    reveal_strlit("listen");
    reveal_strlit("bind");
    reveal_strlit("mount");
    reveal_strlit("register");
    reveal_strlit("dispatch");
    reveal_strlit("menu");
    reveal_strlit("before_action");
}

/// Where a changed symbol is reachable from: the route that dispatches to it, the
/// subcommand that reaches it, the key handler that fires it.
///
/// The changed files are not left out: a route the change itself added is still the
/// surface it sits behind.
pub fn surfaces(hunks: &[Hunk], greps: &[Grep]) -> (r: Vec<String>)
    ensures
        texts(r@) == at_most(surface_reports(greps@, symbols_of(hunk_models(hunks@))), 40),
{
    broadcast use texts_push;

    let symbols = changed_symbols(hunks);
    let nothing: Vec<String> = Vec::new();
    let ghost ss = texts(symbols@);
    let mut out: Vec<String> = Vec::new();
    let mut i: usize = 0;
    proof {
        assert(ss.take(0) =~= Seq::empty());
        assert(texts(nothing@) =~= Seq::empty());
        assert(texts(out@) =~= surface_reports(greps@, ss.take(0)));
    }
    while i < symbols.len()
        invariant
            i <= symbols@.len(),
            ss == texts(symbols@),
            texts(nothing@) == Seq::<Seq<char>>::empty(),
            texts(out@) == surface_reports(greps@, ss.take(i as int)),
        decreases symbols@.len() - i,
    {
        let symbol = symbols[i].as_str();
        let ghost before = texts(out@);
        let hits = find_hits(greps, symbol, &nothing);
        proof {
            assert(ss.take(i + 1).drop_last() =~= ss.take(i as int));
            assert(ss.take(i + 1).last() == symbol@);
        }
        let ways = ways_to(symbol, &hits);
        proof {
            assert(texts(ways@).len() == ways@.len());
        }
        if ways.len() > 0 {
            let heading = "# `".to_owned().concat(symbol).concat("` is reachable through");
            let ghost head = heading@;
            out.push(heading);
            extend_texts(&mut out, &ways);
            proof {
                assert(before.push(head) + texts(ways@) =~= before + (seq![head] + texts(ways@)));
            }
        } else {
            assert(before + surface_report(greps@, symbol@) =~= before);
        }
        i += 1;
    }
    proof {
        assert(ss.take(i as int) =~= ss);
    }
    truncate_texts(&mut out, 40);
    out
}

/// The first four hits that reach `symbol`.
fn ways_to(symbol: &str, hits: &[String]) -> (r: Vec<String>)
    ensures
        texts(r@) == at_most(texts(hits@).filter(reaches(symbol@)), 4),
{
    broadcast use texts_push;

    let ghost hs = texts(hits@);
    let ghost keep = reaches(symbol@);
    let mut ways: Vec<String> = Vec::new();
    let mut k: usize = 0;
    proof {
        assert(hs.take(0).filter(keep) =~= Seq::empty()) by {
            reveal(Seq::filter);
        }
        assert(texts(ways@) =~= hs.take(0).filter(keep));
    }
    while k < hits.len()
        invariant
            k <= hits@.len(),
            hs == texts(hits@),
            keep == reaches(symbol@),
            texts(ways@) == hs.take(k as int).filter(keep),
        decreases hits@.len() - k,
    {
        proof {
            assert(hs.take(k + 1) =~= hs.take(k as int).push(hits@[k as int]@));
            hs.take(k as int).lemma_filter_push(hits@[k as int]@, keep);
        }
        if reaches_symbol(hits[k].as_str(), symbol) {
            ways.push(hits[k].clone());
        }
        k += 1;
    }
    proof {
        assert(hs.take(k as int) =~= hs);
    }
    truncate_texts(&mut ways, 4);
    ways
}

/// The new-side start of a hunk header, where it has one that a `usize` can hold.
pub open spec fn new_side_start(header: Seq<char>, max: nat) -> Option<nat> {
    let parts = pieces(header, "+"@);
    if parts.len() > 1 {
        leading_number(parts[1], max)
    } else {
        None
    }
}

/// The new-side start out of `@@ -12,3 +88,9 @@`.
pub fn new_start(header: &str) -> (r: Option<usize>)
    ensures
        match r {
            Some(n) => new_side_start(header@, usize::MAX as nat) == Some(n as nat),
            None => new_side_start(header@, usize::MAX as nat) is None,
        },
{
    match read_new_start(header, usize::MAX as u64) {
        Some(n) => Some(n as usize),
        None => None,
    }
}

/// The new-side start of a hunk header, where it is at most `max`.
pub(crate) fn read_new_start(header: &str, max: u64) -> (r: Option<u64>)
    ensures
        match r {
            Some(n) => new_side_start(header@, max as nat) == Some(n as nat) && n <= max,
            None => new_side_start(header@, max as nat) is None,
        },
{
    let parts = split(header, "+");
    proof {
        assert(texts(parts@).len() == parts@.len());
    }
    if parts.len() > 1 {
        assert(texts(parts@)[1] == parts@[1]@);
        read_leading(parts[1].as_str(), max)
    } else {
        None
    }
}

// ---------------------------------------------------------------- the work tree

/// The paths that say how a project is tested and run.
pub open spec fn settings_paths() -> Seq<Seq<char>> {
    seq![
        "package.json"@,
        "bin/rails"@,
        "spec"@,
        "Cargo.toml"@,
        "justfile"@,
        "Makefile"@,
        "bin/dev"@,
        "Procfile"@,
        "README.md"@,
    ]
}

/// The paths of the work tree to look at for a change: those that say how the project is
/// tested and run, and the files that changed.
pub fn paths_to_read(hunks: &[Hunk]) -> (r: Vec<String>)
    ensures
        texts(r@) == settings_paths() + hunk_files(hunk_models(hunks@)),
{
    let mut paths = owned(
        &[
            "package.json",
            "bin/rails",
            "spec",
            "Cargo.toml",
            "justfile",
            "Makefile",
            "bin/dev",
            "Procfile",
            "README.md",
        ],
    );
    assert(texts(paths@) =~= settings_paths());
    extend_texts(&mut paths, &files_of(hunks));
    paths
}

/// Nothing else is looked at: two work trees that agree on these paths give the same test
/// invocation, the same invocation of the program, and the same shadowed dispatch.
pub proof fn nothing_else_is_read(a: Tree, b: Tree, hunks: Seq<HunkModel>)
    requires
        forall|p: Seq<char>|
            #[trigger] (settings_paths() + hunk_files(hunks)).contains(p) ==> a.has_path(p)
                == b.has_path(p) && a.text_at(p) == b.text_at(p),
    ensures
        test_invocation(a, tree_names_script(a, "test"@)) == test_invocation(
            b,
            tree_names_script(b, "test"@),
        ),
        invocation(a, tree_names_script(a, "dev"@), tree_names_script(a, "start"@)) == invocation(
            b,
            tree_names_script(b, "dev"@),
            tree_names_script(b, "start"@),
        ),
        hunk_reports(a, hunks) == hunk_reports(b, hunks),
{
    let all = settings_paths() + hunk_files(hunks);
    assert forall|i: int| 0 <= i < all.len() implies a.has_path(#[trigger] all[i]) == b.has_path(
        all[i],
    ) && a.text_at(all[i]) == b.text_at(all[i]) by {
        assert(all.contains(all[i]));
    }
    assert(all[0] == "package.json"@ && all[1] == "bin/rails"@ && all[2] == "spec"@);
    assert(all[3] == "Cargo.toml"@ && all[4] == "justfile"@ && all[5] == "Makefile"@);
    assert(all[6] == "bin/dev"@ && all[7] == "Procfile"@ && all[8] == "README.md"@);
    assert forall|i: int| 0 <= i < hunks.len() implies a.text_at((#[trigger] hunks[i]).file)
        == b.text_at(hunks[i].file) by {
        assert(all[9 + i] == hunks[i].file);
    }
    reports_agree(a, b, hunks);
}

proof fn reports_agree(a: Tree, b: Tree, hunks: Seq<HunkModel>)
    requires
        forall|i: int|
            0 <= i < hunks.len() ==> a.text_at((#[trigger] hunks[i]).file) == b.text_at(
                hunks[i].file,
            ),
    ensures
        hunk_reports(a, hunks) == hunk_reports(b, hunks),
    decreases hunks.len(),
{
    if hunks.len() > 0 {
        assert forall|i: int| 0 <= i < hunks.drop_last().len() implies a.text_at(
            (#[trigger] hunks.drop_last()[i]).file,
        ) == b.text_at(hunks.drop_last()[i].file) by {
            assert(hunks.drop_last()[i] == hunks[i]);
        }
        reports_agree(a, b, hunks.drop_last());
        assert(hunks.last() == hunks[hunks.len() - 1]);
    }
}

} // verus!
