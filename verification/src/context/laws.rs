//! What holds of the context of a change, whatever the repository.

use vstd::prelude::*;
use crate::context::{
    call_site_report, call_site_reports, code_part, declares_symbol, deduplicated, defined_name,
    defined_names, definers, grep_output, hits_for, names_in, reaches, settings_paths, surface_markers,
    surface_report, surface_reports, symbols_of, Grep,
};
use crate::git::laws::hits_are_elsewhere;
use crate::git::{grep_hits, HunkModel};
use crate::text::laws::{first_of_the_first, same_choice};
use crate::text::search::{
    char_position, char_position_unique, has_text, occurs_at, position, position_from_meaning,
};
use crate::text::split::{at_most, lines_of, utf8_length};
use crate::text::words::{has_own_word, has_some_word, is_name_char, name_length};
use crate::triage::all_added;

verus! {

// ---------------------------------------------------------------- symbols

/// Every line is searched for definitions, one after the other.
pub proof fn every_line_is_searched(a: Seq<Seq<char>>, b: Seq<Seq<char>>)
    ensures
        defined_names(a + b) == defined_names(a) + defined_names(b),
    decreases b.len(),
{
    if b.len() == 0 {
        assert(a + b =~= a);
        assert(defined_names(a + b) =~= defined_names(a) + defined_names(b));
    } else {
        every_line_is_searched(a, b.drop_last());
        assert((a + b).drop_last() =~= a + b.drop_last());
        assert((a + b).last() == b.last());
        assert(defined_names(a + b) =~= defined_names(a) + defined_names(b));
    }
}

/// A name that stands, as a whole and three bytes long, behind the first place of one of these
/// words is one that the line defines.
pub proof fn a_definition_is_found(front: Seq<char>, word: Seq<char>, name: Seq<char>, back: Seq<char>)
    requires
        word == "fn "@ || word == "def "@ || word == "class "@ || word == "func "@ || word
            == "struct "@ || word == "enum "@ || word == "trait "@ || word == "impl "@ || word
            == "const "@ || word == "type "@ || word == "interface "@ || word == "module "@,
        forall|j: int| 0 <= j < front.len() ==> !occurs_at(front + word + name + back, word, j),
        forall|j: int| 0 <= j < name.len() ==> is_name_char(#[trigger] name[j]),
        back.len() > 0 ==> !is_name_char(back[0]),
        utf8_length(name) >= 3,
    ensures
        defined_names(seq![front + word + name + back]).contains(name),
{
    let line = front + word + name + back;
    let n = front.len() as int;
    assert(line.subrange(n, n + word.len()) =~= word);
    assert(occurs_at(line, word, n));
    position_from_meaning(line, word, 0);
    assert(position(line, word) == Some(n));
    let rest = line.skip(n + word.len());
    assert(rest =~= name + back);
    length_of_a_name(name, back);
    assert(rest.take(name.len() as int) =~= name);
    assert(defined_name(line, word) == Some(name));
    let ds = definers();
    let d = if word == "fn "@ {
        0
    } else if word == "def "@ {
        1
    } else if word == "class "@ {
        2
    } else if word == "func "@ {
        3
    } else if word == "struct "@ {
        4
    } else if word == "enum "@ {
        5
    } else if word == "trait "@ {
        6
    } else if word == "impl "@ {
        7
    } else if word == "const "@ {
        8
    } else if word == "type "@ {
        9
    } else if word == "interface "@ {
        10
    } else {
        11int
    };
    assert(ds[d] == word);
    names_of_all_words(line, ds, d, name);
    assert(seq![line].drop_last() =~= Seq::<Seq<char>>::empty());
    reveal_with_fuel(defined_names, 2);
    assert(defined_names(seq![line]) =~= names_in(line, ds));
}

proof fn length_of_a_name(name: Seq<char>, back: Seq<char>)
    requires
        forall|j: int| 0 <= j < name.len() ==> is_name_char(#[trigger] name[j]),
        back.len() > 0 ==> !is_name_char(back[0]),
    ensures
        name_length(name + back) == name.len(),
    decreases name.len(),
{
    let s = name + back;
    if name.len() == 0 {
        if back.len() > 0 {
            assert(s[0] == back[0]);
        }
    } else {
        assert(s[0] == name[0]);
        assert(s.skip(1) =~= name.skip(1) + back);
        length_of_a_name(name.skip(1), back);
    }
}

proof fn names_of_all_words(line: Seq<char>, ds: Seq<Seq<char>>, d: int, name: Seq<char>)
    requires
        0 <= d < ds.len(),
        defined_name(line, ds[d]) == Some(name),
    ensures
        names_in(line, ds).contains(name),
    decreases ds.len(),
{
    let all = names_in(line, ds);
    let rest = names_in(line, ds.drop_last());
    if d == ds.len() - 1 {
        assert(all[rest.len() as int] == name);
    } else {
        names_of_all_words(line, ds.drop_last(), d, name);
        let k = choose|k: int| 0 <= k < rest.len() && rest[k] == name;
        assert(all[k] == name);
    }
}

/// A list keeps, of each of its texts, the first, and nothing else goes.
pub proof fn the_first_of_each_is_kept(s: Seq<Seq<char>>, x: Seq<char>)
    ensures
        deduplicated(s.push(x)) == if s.contains(x) {
            deduplicated(s)
        } else {
            deduplicated(s).push(x)
        },
        deduplicated(s).contains(x) <==> s.contains(x),
        deduplicated(Seq::empty()).len() == 0,
{
    assert(s.push(x).drop_last() =~= s);
    kept_if_there(s, x);
}

proof fn kept_if_there(s: Seq<Seq<char>>, x: Seq<char>)
    ensures
        deduplicated(s).contains(x) <==> s.contains(x),
    decreases s.len(),
{
    if s.len() > 0 {
        let rest = s.drop_last();
        kept_if_there(rest, x);
        kept_if_there(rest, s.last());
        let kept = deduplicated(rest);
        if s.contains(x) && x != s.last() {
            let i = choose|i: int| 0 <= i < s.len() && s[i] == x;
            assert(rest[i] == x);
        }
        if rest.contains(x) {
            let i = choose|i: int| 0 <= i < rest.len() && rest[i] == x;
            assert(s[i] == x);
        }
        assert(s[s.len() - 1] == s.last());
        if !kept.contains(s.last()) {
            let all = kept.push(s.last());
            if kept.contains(x) {
                let i = choose|i: int| 0 <= i < kept.len() && kept[i] == x;
                assert(all[i] == x);
            }
            assert(all[kept.len() as int] == s.last());
            if all.contains(x) && x != s.last() {
                let i = choose|i: int| 0 <= i < all.len() && all[i] == x;
                assert(kept[i] == x);
            }
        }
    }
}

/// The symbols of a change are the names that its added lines define, each once, in order: all
/// of them up to twelve.
pub proof fn symbols_are_the_names_defined(hunks: Seq<HunkModel>, name: Seq<char>)
    ensures
        symbols_of(hunks).contains(name) ==> defined_names(all_added(hunks)).contains(name),
        deduplicated(defined_names(all_added(hunks))).len() <= 12 ==> (symbols_of(hunks).contains(name)
            <==> defined_names(all_added(hunks)).contains(name)),
        symbols_of(hunks).len() == if deduplicated(defined_names(all_added(hunks))).len() < 12 {
            deduplicated(defined_names(all_added(hunks))).len()
        } else {
            12
        },
        forall|i: int|
            0 <= i < symbols_of(hunks).len() ==> #[trigger] symbols_of(hunks)[i] == deduplicated(
                defined_names(all_added(hunks)),
            )[i],
{
    let all = defined_names(all_added(hunks));
    kept_if_there(all, name);
    first_of_the_first(deduplicated(all), 12, 12);
    if symbols_of(hunks).contains(name) {
        let i = choose|i: int| 0 <= i < symbols_of(hunks).len() && symbols_of(hunks)[i] == name;
        assert(deduplicated(all)[i] == name);
    }
}

// ---------------------------------------------------------------- searches

/// What is known of a symbol is what the first search for it printed.
pub proof fn the_search_for_a_symbol(greps: Seq<Grep>, i: int)
    requires
        0 <= i < greps.len(),
        forall|j: int| 0 <= j < i ==> (#[trigger] greps[j]).symbol@ != greps[i].symbol@,
    ensures
        grep_output(greps, greps[i].symbol@) == match greps[i].out {
            Some(text) => Some(text@),
            None => None,
        },
    decreases i,
{
    if i > 0 {
        assert(greps[0].symbol@ != greps[i].symbol@);
        assert(greps.skip(1)[i - 1] == greps[i]);
        assert forall|j: int| 0 <= j < i - 1 implies (#[trigger] greps.skip(1)[j]).symbol@
            != greps.skip(1)[i - 1].symbol@ by {
            assert(greps.skip(1)[j] == greps[j + 1]);
        }
        the_search_for_a_symbol(greps.skip(1), i - 1);
    }
}

// ---------------------------------------------------------------- call sites

/// The call sites of a list of symbols are those of its parts, one after the other: none is
/// left out for those before it.
pub proof fn call_sites_of_every_symbol(
    greps: Seq<Grep>,
    a: Seq<Seq<char>>,
    b: Seq<Seq<char>>,
    exclude: Seq<Seq<char>>,
)
    ensures
        call_site_reports(greps, a + b, exclude) == call_site_reports(greps, a, exclude)
            + call_site_reports(greps, b, exclude),
        call_site_reports(greps, Seq::empty(), exclude).len() == 0,
    decreases b.len(),
{
    if b.len() == 0 {
        assert(a + b =~= a);
        assert(call_site_reports(greps, a + b, exclude) =~= call_site_reports(greps, a, exclude)
            + call_site_reports(greps, b, exclude));
    } else {
        call_sites_of_every_symbol(greps, a, b.drop_last(), exclude);
        assert((a + b).drop_last() =~= a + b.drop_last());
        assert((a + b).last() == b.last());
        assert(call_site_reports(greps, a + b, exclude) =~= call_site_reports(greps, a, exclude)
            + call_site_reports(greps, b, exclude));
    }
}

/// A symbol that is used outside the changed files has a heading and the first eight of these
/// uses; one that is not has nothing.
pub proof fn call_sites_of_a_symbol(greps: Seq<Grep>, i: int, exclude: Seq<Seq<char>>)
    requires
        0 <= i < greps.len(),
        forall|j: int| 0 <= j < i ==> (#[trigger] greps[j]).symbol@ != greps[i].symbol@,
    ensures
        ({
            let symbol = greps[i].symbol@;
            let report = call_site_reports(greps, seq![symbol], exclude);
            match greps[i].out {
                Some(text) => {
                    let uses = lines_of(text@).filter(
                        |l: Seq<char>| !exclude.contains(l.take(char_position(l, ':'))),
                    );
                    if uses.len() == 0 {
                        report.len() == 0
                    } else {
                        &&& report.len() == 1 + if uses.len() < 8 { uses.len() } else { 8 }
                        &&& report[0] == "# call sites for `"@ + symbol + "`"@
                        &&& forall|k: int| 1 <= k < report.len() ==> #[trigger] report[k] == uses[k - 1]
                    }
                },
                None => report.len() == 0,
            }
        }),
{
    let symbol = greps[i].symbol@;
    the_search_for_a_symbol(greps, i);
    reveal_with_fuel(call_site_reports, 2);
    assert(seq![symbol].drop_last() =~= Seq::<Seq<char>>::empty());
    let report = call_site_reports(greps, seq![symbol], exclude);
    assert(report =~= call_site_report(greps, symbol, exclude));
    match greps[i].out {
        Some(text) => {
            let uses = lines_of(text@).filter(
                |l: Seq<char>| !exclude.contains(l.take(char_position(l, ':'))),
            );
            hits_are_elsewhere(text@, exclude);
            let hits = grep_hits(text@, exclude);
            first_of_the_first(hits, 8, 8);
            if uses.len() > 0 {
                assert forall|k: int| 1 <= k < report.len() implies #[trigger] report[k] == uses[k
                    - 1] by {
                    assert(report[k] == at_most(hits, 8)[k - 1]);
                    assert(at_most(hits, 8)[k - 1] == hits[k - 1]);
                }
            }
        },
        None => {},
    }
}

// ---------------------------------------------------------------- surfaces

/// The ways to a list of symbols are those to its parts, one after the other.
pub proof fn surfaces_of_every_symbol(greps: Seq<Grep>, a: Seq<Seq<char>>, b: Seq<Seq<char>>)
    ensures
        surface_reports(greps, a + b) == surface_reports(greps, a) + surface_reports(greps, b),
        surface_reports(greps, Seq::empty()).len() == 0,
    decreases b.len(),
{
    if b.len() == 0 {
        assert(a + b =~= a);
        assert(surface_reports(greps, a + b) =~= surface_reports(greps, a) + surface_reports(
            greps,
            b,
        ));
    } else {
        surfaces_of_every_symbol(greps, a, b.drop_last());
        assert((a + b).drop_last() =~= a + b.drop_last());
        assert((a + b).last() == b.last());
        assert(surface_reports(greps, a + b) =~= surface_reports(greps, a) + surface_reports(
            greps,
            b,
        ));
    }
}

/// The ways to a symbol are, of the first forty hits in whatever file, those that do not
/// declare it and whose code holds a word that routes: a heading and the first four of them.
pub proof fn surfaces_of_a_symbol(greps: Seq<Grep>, i: int)
    requires
        0 <= i < greps.len(),
        forall|j: int| 0 <= j < i ==> (#[trigger] greps[j]).symbol@ != greps[i].symbol@,
    ensures
        ({
            let symbol = greps[i].symbol@;
            let report = surface_reports(greps, seq![symbol]);
            match greps[i].out {
                Some(text) => {
                    let seen = if lines_of(text@).len() < 40 {
                        lines_of(text@)
                    } else {
                        lines_of(text@).take(40)
                    };
                    let ways = seen.filter(
                        |l: Seq<char>|
                            !declares_symbol(l, symbol) && has_some_word(
                                code_part(l),
                                surface_markers(),
                            ),
                    );
                    if ways.len() == 0 {
                        report.len() == 0
                    } else {
                        &&& report.len() == 1 + if ways.len() < 4 { ways.len() } else { 4 }
                        &&& report[0] == "# `"@ + symbol + "` is reachable through"@
                        &&& forall|k: int| 1 <= k < report.len() ==> #[trigger] report[k] == ways[k - 1]
                    }
                },
                None => report.len() == 0,
            }
        }),
{
    let symbol = greps[i].symbol@;
    the_search_for_a_symbol(greps, i);
    reveal_with_fuel(surface_reports, 2);
    assert(seq![symbol].drop_last() =~= Seq::<Seq<char>>::empty());
    let report = surface_reports(greps, seq![symbol]);
    assert(report =~= surface_report(greps, symbol));
    let p = |l: Seq<char>|
        !declares_symbol(l, symbol) && has_some_word(code_part(l), surface_markers());
    match greps[i].out {
        Some(text) => {
            let none = Seq::<Seq<char>>::empty();
            let ls = lines_of(text@);
            let all = |l: Seq<char>| !none.contains(l.take(char_position(l, ':')));
            hits_are_elsewhere(text@, none);
            everything_is_chosen(ls, all);
            let seen = if ls.len() < 40 { ls } else { ls.take(40) };
            let hits = hits_for(greps, symbol, none);
            assert(hits =~= seen);
            same_choice(seen, reaches(symbol), p);
            let ways = seen.filter(p);
            first_of_the_first(ways, 4, 4);
            if ways.len() > 0 {
                assert forall|k: int| 1 <= k < report.len() implies #[trigger] report[k] == ways[k
                    - 1] by {
                    assert(report[k] == at_most(ways, 4)[k - 1]);
                }
            }
        },
        None => {
            let none = Seq::<Seq<char>>::empty();
            assert(none.filter(reaches(symbol)) =~= none) by {
                reveal(Seq::filter);
            }
        },
    }
}

proof fn everything_is_chosen<A>(s: Seq<A>, p: spec_fn(A) -> bool)
    requires
        forall|x: A| #[trigger] p(x),
    ensures
        s.filter(p) == s,
    decreases s.len(),
{
    reveal(Seq::filter);
    if s.len() > 0 {
        everything_is_chosen(s.drop_last(), p);
        assert(p(s.last()));
    }
    assert(s.filter(p) =~= s);
}

/// The code of a hit is what stands behind its second colon.
pub proof fn the_code_of_a_hit(file: Seq<char>, number: Seq<char>, code: Seq<char>)
    requires
        forall|j: int| 0 <= j < file.len() ==> file[j] != ':',
        forall|j: int| 0 <= j < number.len() ==> number[j] != ':',
    ensures
        code_part(file + seq![':'] + number + seq![':'] + code) == code,
{
    let line = file + seq![':'] + number + seq![':'] + code;
    char_position_unique(line, ':', file.len() as int);
    let rest = line.skip((file.len() + 1) as int);
    assert(rest =~= number + seq![':'] + code);
    char_position_unique(rest, ':', number.len() as int);
    assert(rest.skip((number.len() + 1) as int) =~= code);
}

/// A line declares a symbol where the symbol stands behind one of these words.
pub proof fn a_declaration_is_seen(front: Seq<char>, symbol: Seq<char>, back: Seq<char>)
    ensures
        declares_symbol(front + ("fn "@ + symbol) + back, symbol),
        declares_symbol(front + ("def "@ + symbol) + back, symbol),
        declares_symbol(front + ("class "@ + symbol) + back, symbol),
        declares_symbol(front + ("func "@ + symbol) + back, symbol),
        declares_symbol(front + ("struct "@ + symbol) + back, symbol),
        declares_symbol(front + ("enum "@ + symbol) + back, symbol),
        declares_symbol(front + ("trait "@ + symbol) + back, symbol),
        declares_symbol(front + ("impl "@ + symbol) + back, symbol),
        declares_symbol(front + ("const "@ + symbol) + back, symbol),
        declares_symbol(front + ("type "@ + symbol) + back, symbol),
        declares_symbol(front + ("interface "@ + symbol) + back, symbol),
        declares_symbol(front + ("module "@ + symbol) + back, symbol),
{
    let ds = definers();
    assert forall|i: int| 0 <= i < ds.len() implies declares_symbol(
        front + (#[trigger] ds[i] + symbol) + back,
        symbol,
    ) by {
        let t = ds[i] + symbol;
        let line = front + t + back;
        let n = front.len() as int;
        assert(line.subrange(n, n + t.len()) =~= t);
        assert(occurs_at(line, t, n));
        assert(has_text(line, definers()[i] + symbol));
    }
    assert(ds[0] == "fn "@ && ds[1] == "def "@ && ds[2] == "class "@ && ds[3] == "func "@);
    assert(ds[4] == "struct "@ && ds[5] == "enum "@ && ds[6] == "trait "@ && ds[7] == "impl "@);
    assert(ds[8] == "const "@ && ds[9] == "type "@ && ds[10] == "interface "@);
    assert(ds[11] == "module "@);
}

/// Each of these words routes or dispatches.
pub proof fn words_that_route(code: Seq<char>, word: Seq<char>)
    requires
        has_own_word(code, word),
        word == "route"@ || word == "routes"@ || word == "get"@ || word == "post"@ || word == "put"@
            || word == "patch"@ || word == "delete"@ || word == "resources"@ || word
            == "namespace"@ || word == "scope"@ || word == "Router"@ || word == "Route"@ || word
            == "path"@ || word == "url"@ || word == "endpoint"@ || word == "handler"@ || word
            == "Subcommand"@ || word == "subcommand"@ || word == "command"@ || word == "Command"@
            || word == "KeyCode"@ || word == "on_key"@ || word == "addEventListener"@ || word
            == "listen"@ || word == "bind"@ || word == "mount"@ || word == "register"@ || word
            == "dispatch"@ || word == "menu"@ || word == "before_action"@,
    ensures
        has_some_word(code, surface_markers()),
{
    let ms = surface_markers();
    assert(ms[0] == "route"@ && ms[1] == "routes"@ && ms[2] == "get"@ && ms[3] == "post"@);
    assert(ms[4] == "put"@ && ms[5] == "patch"@ && ms[6] == "delete"@ && ms[7] == "resources"@);
    assert(ms[8] == "namespace"@ && ms[9] == "scope"@ && ms[10] == "Router"@);
    assert(ms[11] == "Route"@ && ms[12] == "path"@ && ms[13] == "url"@ && ms[14] == "endpoint"@);
    assert(ms[15] == "handler"@ && ms[16] == "Subcommand"@ && ms[17] == "subcommand"@);
    assert(ms[18] == "command"@ && ms[19] == "Command"@ && ms[20] == "KeyCode"@);
    assert(ms[21] == "on_key"@ && ms[22] == "addEventListener"@ && ms[23] == "listen"@);
    assert(ms[24] == "bind"@ && ms[25] == "mount"@ && ms[26] == "register"@);
    assert(ms[27] == "dispatch"@ && ms[28] == "menu"@ && ms[29] == "before_action"@);
}

/// Nothing else declares a symbol than one of these words before it.
pub proof fn nothing_else_declares(line: Seq<char>, symbol: Seq<char>)
    requires
        !has_text(line, "fn "@ + symbol),
        !has_text(line, "def "@ + symbol),
        !has_text(line, "class "@ + symbol),
        !has_text(line, "func "@ + symbol),
        !has_text(line, "struct "@ + symbol),
        !has_text(line, "enum "@ + symbol),
        !has_text(line, "trait "@ + symbol),
        !has_text(line, "impl "@ + symbol),
        !has_text(line, "const "@ + symbol),
        !has_text(line, "type "@ + symbol),
        !has_text(line, "interface "@ + symbol),
        !has_text(line, "module "@ + symbol),
    ensures
        !declares_symbol(line, symbol),
{
    let ds = definers();
    assert(ds.len() == 12);
    assert forall|i: int| 0 <= i < ds.len() implies !has_text(line, #[trigger] ds[i] + symbol) by {
        assert(i == 0 || i == 1 || i == 2 || i == 3 || i == 4 || i == 5 || i == 6 || i == 7 || i
            == 8 || i == 9 || i == 10 || i == 11);
    }
}

/// What is read of a project to say how it is tested and run.
pub proof fn what_says_how_a_project_runs()
    ensures
        settings_paths() == seq![
            "package.json"@,
            "bin/rails"@,
            "spec"@,
            "Cargo.toml"@,
            "justfile"@,
            "Makefile"@,
            "bin/dev"@,
            "Procfile"@,
            "README.md"@,
        ],
{
}

} // verus!
