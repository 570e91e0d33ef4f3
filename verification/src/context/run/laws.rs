//! What holds of how a project is run and tested, whatever is in it.

use vstd::prelude::*;
use crate::context::new_side_start;
use crate::context::run::{
    assigned_value, binary_name, crate_binary, first_process, invocation, process_command,
    test_invocation, tree_names_script, unquoted_end, unquoted_start, usage_command, Section,
};
use crate::context::tree::{behind_last_dot, entry_at, extension_of, last_component, Entry, Tree};
use crate::json::{json_member, json_value};
use crate::text::chars::{is_space, lowercase};
use crate::text::laws::{a_number_in_front_is_read, before_the_first, the_first_piece};
use crate::text::number::{decimal, decimal_reads_back};
use crate::text::search::{
    char_position, char_position_meaning, char_position_unique, has_prefix, occurs_at,
    without_prefixes,
};
use crate::text::split::{lines_of, pieces, trimmed};

verus! {

// ---------------------------------------------------------------- the tree

/// A path is there exactly where an entry has it, and its text is that of the first that does.
pub proof fn what_is_in_a_tree(t: Tree, path: Seq<char>, i: int)
    ensures
        t.has_path(path) <==> exists|k: int|
            0 <= k < t.entries@.len() && (#[trigger] t.entries@[k]).path@ == path,
        0 <= i < t.entries@.len() && t.entries@[i].path@ == path && (forall|k: int|
            0 <= k < i ==> (#[trigger] t.entries@[k]).path@ != path) ==> match t.entries@[i].text {
            Some(text) => t.text_at(path) == Some(text@),
            None => t.text_at(path) is None,
        },
        !t.has_path(path) ==> t.text_at(path) is None,
{
    first_entry(t.entries@, path);
}

proof fn first_entry(es: Seq<Entry>, path: Seq<char>)
    ensures
        match entry_at(es, path) {
            Some(e) => exists|i: int|
                0 <= i < es.len() && #[trigger] es[i] == e && e.path@ == path && forall|k: int|
                    0 <= k < i ==> (#[trigger] es[k]).path@ != path,
            None => forall|k: int| 0 <= k < es.len() ==> (#[trigger] es[k]).path@ != path,
        },
    decreases es.len(),
{
    if es.len() > 0 {
        let rest = es.skip(1);
        first_entry(rest, path);
        if es[0].path@ == path {
            assert(es[0] == entry_at(es, path)->0);
        } else {
            match entry_at(rest, path) {
                Some(e) => {
                    let i = choose|i: int|
                        0 <= i < rest.len() && #[trigger] rest[i] == e && e.path@ == path && forall|
                            k: int,
                        |
                            0 <= k < i ==> (#[trigger] rest[k]).path@ != path;
                    assert(es[i + 1] == rest[i]);
                    assert forall|k: int| 0 <= k < i + 1 implies (#[trigger] es[k]).path@ != path by {
                        if k > 0 {
                            assert(es[k] == rest[k - 1]);
                        }
                    }
                },
                None => {
                    assert forall|k: int| 0 <= k < es.len() implies (#[trigger] es[k]).path@ != path by {
                        if k > 0 {
                            assert(es[k] == rest[k - 1]);
                        }
                    }
                },
            }
        }
    }
}

/// The extension of a file is what stands behind the last dot of its name, where something stands
/// before that dot.
pub proof fn what_an_extension_is(dir: Seq<char>, stem: Seq<char>, ext: Seq<char>)
    requires
        forall|i: int| 0 <= i < stem.len() ==> stem[i] != '/',
        forall|i: int| 0 <= i < ext.len() ==> ext[i] != '/' && ext[i] != '.',
        stem.len() > 0,
        ext.len() > 0,
    ensures
        extension_of(dir + "/"@ + stem + "."@ + ext) == ext,
        extension_of(stem + "."@ + ext) == ext,
{
    reveal_strlit("/");
    reveal_strlit(".");
    reveal_strlit("");
    reveal_strlit("..");
    let name = stem + "."@ + ext;
    assert forall|i: int| 0 <= i < name.len() implies name[i] != '/' by {
        if i < stem.len() {
            assert(name[i] == stem[i]);
        } else if i > stem.len() {
            assert(name[i] == ext[i - stem.len() - 1]);
        }
    }
    crate::llm::laws::the_name_of_a_file(dir, name);
    crate::text::laws::pieces_make_the_text(dir + "/"@ + name, "/"@);
    crate::text::laws::pieces_make_the_text(name, "/"@);
    assert(dir + "/"@ + stem + "."@ + ext =~= dir + "/"@ + name);
    assert(name.last() == ext.last());
    assert(name.last() != '.') by {
        assert(ext[ext.len() - 1] != '.');
    }
    assert(name.len() >= 3);
    dot_before(stem.push('.'), ext);
    assert(name =~= stem.push('.') + ext);
    assert(name.skip(stem.len() as int + 1) =~= ext);
    let parts = pieces(dir + "/"@ + name, "/"@);
    assert(parts.last() == name);
    assert(pieces(name, "/"@).last() == name);
    assert(last_component(parts) == Some(name));
    if name == ".."@ {
        assert(name.len() == 2);
    }
}

proof fn dot_before(front: Seq<char>, ext: Seq<char>)
    requires
        front.len() > 0,
        front.last() == '.',
        forall|i: int| 0 <= i < ext.len() ==> ext[i] != '.',
    ensures
        behind_last_dot(front + ext) == front.len(),
    decreases ext.len(),
{
    if ext.len() == 0 {
        assert(front + ext =~= front);
    } else {
        assert(ext[ext.len() - 1] != '.');
        assert((front + ext).drop_last() =~= front + ext.drop_last());
        dot_before(front, ext.drop_last());
    }
}

/// Where a hunk starts, after the change, is the number behind the plus sign in its header.
pub proof fn where_a_hunk_starts(front: Seq<char>, n: nat, back: Seq<char>, max: nat)
    requires
        forall|i: int| 0 <= i < front.len() ==> front[i] != '+',
        back.len() == 0 || !('0' <= back[0] <= '9'),
        n <= max,
    ensures
        new_side_start(front + "+"@ + decimal(n) + back, max) == Some(n),
{
    reveal_strlit("+");
    let plus = "+"@;
    assert(plus =~= seq!['+']);
    let tail = decimal(n) + back;
    let s = front + plus + tail;
    assert(front + "+"@ + decimal(n) + back =~= s);
    assert forall|j: int| 0 <= j < front.len() implies !occurs_at(front + plus + tail, plus, j) by {
        if occurs_at(s, plus, j) {
            assert(s.subrange(j, j + 1)[0] == s[j]);
            assert(s[j] == front[j]);
        }
    }
    the_first_piece(front, plus, tail);
    crate::text::laws::pieces_make_the_text(tail, plus);
    before_the_first(tail, '+', plus);
    char_position_meaning(tail, '+');
    decimal_reads_back(n);
    let p = char_position(tail, '+');
    let d = decimal(n);
    assert(p >= d.len()) by {
        if p < d.len() {
            assert(tail[p] == d[p]);
        }
    }
    let cut = back.take(p - d.len());
    assert(tail.take(p) =~= d + cut);
    a_number_in_front_is_read(n, cut, max);
    assert(pieces(s, plus)[1] == pieces(tail, plus)[0]);
}

// ---------------------------------------------------------------- tests

/// Whether a file is there and one of its lines starts with a text.
pub open spec fn has_line(t: Tree, path: Seq<char>, front: Seq<char>) -> bool {
    t.text_at(path) is Some && exists|i: int|
        0 <= i < lines_of(t.text_at(path)->0).len() && has_prefix(
            #[trigger] lines_of(t.text_at(path)->0)[i],
            front,
        )
}

/// How a project is tested: by the first of these that it has.
pub proof fn how_a_project_is_tested(t: Tree, npm: bool)
    ensures
        ({
            let rails = t.has_path("bin/rails"@);
            let rust = !rails && t.has_path("Cargo.toml"@);
            let just = !rails && !rust && t.has_path("justfile"@);
            let make = !rails && !rust && !just && t.has_path("Makefile"@);
            let node = !rails && !rust && !just && !make && t.has_path("package.json"@);
            let r = test_invocation(t, npm);
            &&& rails && t.has_path("spec"@) ==> r == Some("bundle exec rspec"@)
            &&& rails && !t.has_path("spec"@) ==> r == Some("bin/rails test"@)
            &&& rust ==> r == Some("cargo test"@)
            &&& just && has_line(t, "justfile"@, "test:"@) ==> r == Some("just test"@)
            &&& just && !has_line(t, "justfile"@, "test:"@) ==> r is None
            &&& make && has_line(t, "Makefile"@, "test:"@) ==> r == Some("make test"@)
            &&& make && !has_line(t, "Makefile"@, "test:"@) ==> r is None
            &&& node && npm ==> r == Some("npm test"@)
            &&& node && !npm ==> r is None
            &&& !rails && !rust && !just && !make && !node ==> r is None
        }),
{
}

// ---------------------------------------------------------------- running

/// How a project is run: by a script of its package, its own `bin/dev`, its first process, a task,
/// its binary or what its README says, the first of these that there is.
pub proof fn how_a_project_is_run(t: Tree, dev: bool, start: bool)
    ensures
        ({
            let r = invocation(t, dev, start);
            let bin = t.has_path("bin/dev"@);
            let scripts = dev || start || bin;
            let run = has_line(t, "justfile"@, "run:"@);
            let dev_task = has_line(t, "justfile"@, "dev:"@);
            let serve = has_line(t, "justfile"@, "serve:"@);
            let tasks = run || dev_task || serve;
            &&& dev ==> r == Some("npm run dev"@)
            &&& !dev && start ==> r == Some("npm run start"@)
            &&& !dev && !start && bin ==> r == Some("bin/dev"@)
            &&& !scripts && process_command(t) is Some ==> r == process_command(t)
            &&& !scripts && process_command(t) is None && run ==> r == Some("just run"@)
            &&& !scripts && process_command(t) is None && !run && dev_task ==> r == Some(
                "just dev"@,
            )
            &&& !scripts && process_command(t) is None && !run && !dev_task && serve ==> r == Some(
                "just serve"@,
            )
            &&& !scripts && process_command(t) is None && !tasks ==> match crate_binary(t) {
                Some(name) => r == Some("cargo run --bin "@ + name),
                None => match t.text_at("README.md"@) {
                    Some(text) => r == usage_command(lines_of(text), false, false),
                    None => r is None,
                },
            }
        }),
{
}

/// What a Procfile starts is the command behind the first colon of its first line that has one.
pub proof fn the_first_process_is_run(
    before: Seq<Seq<char>>,
    name: Seq<char>,
    cmd: Seq<char>,
    after: Seq<Seq<char>>,
)
    requires
        forall|i: int, j: int|
            0 <= i < before.len() && 0 <= j < before[i].len() ==> #[trigger] before[i][j] != ':',
        forall|i: int| 0 <= i < name.len() ==> name[i] != ':',
        trimmed(name + ":"@ + cmd).len() > 0,
    ensures
        first_process(before + seq![name + ":"@ + cmd] + after) == if trimmed(cmd).len() > 0 {
            Some(trimmed(cmd))
        } else {
            None
        },
        first_process(before) is None,
    decreases before.len(),
{
    reveal_strlit(":");
    let line = name + ":"@ + cmd;
    let ls = before + seq![line] + after;
    if before.len() == 0 {
        assert(ls[0] == line);
        char_position_unique(line, ':', name.len() as int);
        assert(line.skip(name.len() as int + 1) =~= cmd);
    } else {
        let rest = before.skip(1);
        assert(ls[0] == before[0]);
        char_position_meaning(before[0], ':');
        if char_position(before[0], ':') < before[0].len() {
            assert(before[0][char_position(before[0], ':')] == ':');
        }
        assert(ls.skip(1) =~= rest + seq![line] + after);
        assert forall|i: int, j: int| 0 <= i < rest.len() && 0 <= j < rest[i].len() implies
            #[trigger] rest[i][j] != ':' by {
            assert(rest[i] == before[i + 1]);
            assert(before[i + 1][j] != ':');
        }
        the_first_process_is_run(rest, name, cmd, after);
    }
}

/// A value is what stands behind the first equals sign, without blanks and quotation marks around.
pub proof fn what_is_assigned(key: Seq<char>, value: Seq<char>)
    requires
        forall|i: int| 0 <= i < key.len() ==> key[i] != '=',
        value.len() > 0,
        forall|i: int| 0 <= i < value.len() ==> value[i] != '"',
    ensures
        assigned_value(key + "= \""@ + value + "\""@) == Some(value),
        assigned_value(key) is None,
{
    reveal_strlit("= \"");
    reveal_strlit("\"");
    let line = key + "= \""@ + value + "\""@;
    char_position_unique(line, '=', key.len() as int);
    let quoted = seq!['"'] + value + seq!['"'];
    assert(line.skip(key.len() as int + 1) =~= seq![' '] + quoted + Seq::<char>::empty());
    assert(!is_space('"'));
    crate::text::laws::trimming_takes_space_off(seq![' '], quoted, Seq::empty());
    let inner = value + seq!['"'];
    reveal_with_fuel(unquoted_start, 2);
    reveal_with_fuel(unquoted_end, 2);
    assert(quoted.skip(1) =~= inner);
    assert(inner[0] == value[0]);
    assert(unquoted_start(quoted) == inner);
    assert(inner.drop_last() =~= value);
    assert(value.last() == value[value.len() - 1]);
    assert(unquoted_end(inner) == value);
    char_position_meaning(key, '=');
}

/// Whether a line is a heading of a manifest.
pub open spec fn is_manifest_heading(line: Seq<char>) -> bool {
    has_prefix(trimmed(line), "["@)
}

/// The binary of a manifest is the name under its first `[[bin]]`, whatever the package is called.
pub proof fn the_first_binary_is_named(ls: Seq<Seq<char>>, b: int, n: int)
    requires
        0 <= b < n < ls.len(),
        trimmed(ls[b]) == "[[bin]]"@,
        forall|i: int| 0 <= i < b ==> trimmed(#[trigger] ls[i]) != "[[bin]]"@,
        forall|i: int|
            b < i < n ==> !is_manifest_heading(#[trigger] ls[i]) && !has_prefix(
                trimmed(ls[i]),
                "name"@,
            ),
        has_prefix(trimmed(ls[n]), "name"@),
    ensures
        binary_name(ls, Section::Other, None) == assigned_value(trimmed(ls[n])),
{
    named_under_bin(ls, Section::Other, None, b, n);
}

proof fn named_under_bin(
    ls: Seq<Seq<char>>,
    section: Section,
    package: Option<Seq<char>>,
    b: int,
    n: int,
)
    requires
        0 <= b < n < ls.len(),
        !(section is Bin),
        trimmed(ls[b]) == "[[bin]]"@,
        forall|i: int| 0 <= i < b ==> trimmed(#[trigger] ls[i]) != "[[bin]]"@,
        forall|i: int|
            b < i < n ==> !is_manifest_heading(#[trigger] ls[i]) && !has_prefix(
                trimmed(ls[i]),
                "name"@,
            ),
        has_prefix(trimmed(ls[n]), "name"@),
    ensures
        binary_name(ls, section, package) == assigned_value(trimmed(ls[n])),
    decreases b,
{
    let rest = ls.skip(1);
    let t = trimmed(ls[0]);
    assert(rest[n - 1] == ls[n]);
    assert forall|i: int| b - 1 < i < n - 1 implies !is_manifest_heading(#[trigger] rest[i])
        && !has_prefix(trimmed(rest[i]), "name"@) by {
        assert(rest[i] == ls[i + 1]);
    }
    if b == 0 {
        reveal_strlit("[[bin]]");
        reveal_strlit("[");
        assert("[[bin]]"@.subrange(0, 1) =~= "["@);
        under_bin(rest, package, n - 1);
    } else {
        assert(rest[b - 1] == ls[b]);
        assert forall|i: int| 0 <= i < b - 1 implies trimmed(#[trigger] rest[i]) != "[[bin]]"@ by {
            assert(rest[i] == ls[i + 1]);
        }
        assert(t != "[[bin]]"@);
        if has_prefix(t, "["@) {
            named_under_bin(rest, crate::context::run::section_of(t), package, b - 1, n - 1);
        } else if !has_prefix(t, "name"@) || section == Section::Other {
            named_under_bin(rest, section, package, b - 1, n - 1);
        } else {
            named_under_bin(rest, section, assigned_value(t), b - 1, n - 1);
        }
    }
}

proof fn under_bin(ls: Seq<Seq<char>>, package: Option<Seq<char>>, n: int)
    requires
        0 <= n < ls.len(),
        forall|i: int|
            0 <= i < n ==> !is_manifest_heading(#[trigger] ls[i]) && !has_prefix(
                trimmed(ls[i]),
                "name"@,
            ),
        has_prefix(trimmed(ls[n]), "name"@),
    ensures
        binary_name(ls, Section::Bin, package) == assigned_value(trimmed(ls[n])),
    decreases n,
{
    let t = trimmed(ls[0]);
    if n == 0 {
        reveal_strlit("name");
        reveal_strlit("[");
        if has_prefix(t, "["@) {
            assert(t.subrange(0, 1)[0] == t[0]);
            assert(t.subrange(0, 4)[0] == t[0]);
        }
    } else {
        let rest = ls.skip(1);
        assert(!is_manifest_heading(ls[0]));
        assert(rest[n - 1] == ls[n]);
        assert forall|i: int| 0 <= i < n - 1 implies !is_manifest_heading(#[trigger] rest[i])
            && !has_prefix(trimmed(rest[i]), "name"@) by {
            assert(rest[i] == ls[i + 1]);
        }
        under_bin(rest, package, n - 1);
    }
}

/// Without a `[[bin]]` the binary is called as its package is.
pub proof fn otherwise_the_package_is_named(ls: Seq<Seq<char>>, p: int, n: int)
    requires
        0 <= p < n < ls.len(),
        trimmed(ls[p]) == "[package]"@,
        forall|i: int| 0 <= i < ls.len() ==> trimmed(#[trigger] ls[i]) != "[[bin]]"@,
        forall|i: int| p < i < n ==> !is_manifest_heading(#[trigger] ls[i]),
        forall|i: int|
            0 <= i < ls.len() && i != n ==> !has_prefix(trimmed(#[trigger] ls[i]), "name"@),
        has_prefix(trimmed(ls[n]), "name"@),
    ensures
        binary_name(ls, Section::Other, None) == assigned_value(trimmed(ls[n])),
{
    named_by_package(ls, Section::Other, None, p, n);
}

proof fn named_by_package(
    ls: Seq<Seq<char>>,
    section: Section,
    package: Option<Seq<char>>,
    p: int,
    n: int,
)
    requires
        n < ls.len(),
        !(section is Bin),
        -1 <= p < n,
        p >= 0 ==> trimmed(ls[p]) == "[package]"@,
        p == -1 ==> section is Package,
        forall|i: int| 0 <= i < ls.len() ==> trimmed(#[trigger] ls[i]) != "[[bin]]"@,
        forall|i: int| 0 <= i && p < i < n ==> !is_manifest_heading(#[trigger] ls[i]),
        forall|i: int|
            0 <= i < ls.len() && i != n ==> !has_prefix(trimmed(#[trigger] ls[i]), "name"@),
        has_prefix(trimmed(ls[n]), "name"@),
    ensures
        binary_name(ls, section, package) == assigned_value(trimmed(ls[n])),
    decreases n,
{
    let rest = ls.skip(1);
    let t = trimmed(ls[0]);
    assert forall|i: int| 0 <= i < rest.len() implies trimmed(#[trigger] rest[i]) != "[[bin]]"@ by {
        assert(rest[i] == ls[i + 1]);
    }
    assert(t != "[[bin]]"@);
    if n == 0 {
        reveal_strlit("name");
        reveal_strlit("[");
        if has_prefix(t, "["@) {
            assert(t.subrange(0, 1)[0] == t[0]);
            assert(t.subrange(0, 4)[0] == t[0]);
        }
        assert forall|i: int| 0 <= i < rest.len() implies !has_prefix(
            trimmed(#[trigger] rest[i]),
            "name"@,
        ) by {
            assert(rest[i] == ls[i + 1]);
        }
        no_more_names(rest, section, assigned_value(t));
    } else {
        assert(!has_prefix(t, "name"@));
        assert(rest[n - 1] == ls[n]);
        assert forall|i: int| 0 <= i < rest.len() && i != n - 1 implies !has_prefix(
            trimmed(#[trigger] rest[i]),
            "name"@,
        ) by {
            assert(rest[i] == ls[i + 1]);
        }
        assert forall|i: int| 0 <= i && p - 1 < i < n - 1 implies !is_manifest_heading(
            #[trigger] rest[i],
        ) by {
            assert(rest[i] == ls[i + 1]);
        }
        let next = if has_prefix(t, "["@) {
            crate::context::run::section_of(t)
        } else {
            section
        };
        if p == 0 {
            reveal_strlit("[package]");
            reveal_strlit("[[bin]]");
            reveal_strlit("[");
            assert("[package]"@.subrange(0, 1) =~= "["@);
            named_by_package(rest, next, package, -1, n - 1);
        } else if p > 0 {
            assert(rest[p - 1] == ls[p]);
            named_by_package(rest, next, package, p - 1, n - 1);
        } else {
            assert(!is_manifest_heading(ls[0]));
            named_by_package(rest, next, package, -1, n - 1);
        }
    }
}

proof fn no_more_names(ls: Seq<Seq<char>>, section: Section, package: Option<Seq<char>>)
    requires
        forall|i: int| 0 <= i < ls.len() ==> trimmed(#[trigger] ls[i]) != "[[bin]]"@,
        forall|i: int| 0 <= i < ls.len() ==> !has_prefix(trimmed(#[trigger] ls[i]), "name"@),
    ensures
        binary_name(ls, section, package) == package,
    decreases ls.len(),
{
    if ls.len() > 0 {
        let rest = ls.skip(1);
        assert(!has_prefix(trimmed(ls[0]), "name"@));
        assert forall|i: int| 0 <= i < rest.len() implies trimmed(#[trigger] rest[i]) != "[[bin]]"@ by {
            assert(rest[i] == ls[i + 1]);
        }
        assert forall|i: int| 0 <= i < rest.len() implies !has_prefix(
            trimmed(#[trigger] rest[i]),
            "name"@,
        ) by {
            assert(rest[i] == ls[i + 1]);
        }
        no_more_names(rest, crate::context::run::section_of(trimmed(ls[0])), package);
        no_more_names(rest, section, package);
    }
}

// ---------------------------------------------------------------- the README

/// Whether a line is a heading of a README.
pub open spec fn is_title(line: Seq<char>) -> bool {
    has_prefix(trimmed(line), "#"@)
}

/// Whether a heading says that what follows is how the project is used.
pub open spec fn tells_usage(line: Seq<char>) -> bool {
    let title = lowercase(trimmed(without_prefixes(trimmed(line).skip(1), "#"@)));
    has_prefix(title, "usage"@) || has_prefix(title, "running"@) || has_prefix(title, "run"@)
        || has_prefix(title, "getting started"@) || has_prefix(title, "quick start"@)
}

/// Whether a line opens or closes a block of code.
pub open spec fn is_fence(line: Seq<char>) -> bool {
    has_prefix(trimmed(line), "```"@)
}

/// The command on a line, without a prompt.
pub open spec fn command_on(line: Seq<char>) -> Seq<char> {
    trimmed(without_prefixes(trimmed(line), "$"@))
}

/// Whether a line of a block holds a command, neither blank nor a comment.
pub open spec fn holds_command(line: Seq<char>) -> bool {
    command_on(line).len() > 0 && !has_prefix(command_on(line), "#"@)
}

/// The command of a README is the first in the first block under a heading on usage.
pub proof fn the_first_command_under_usage(ls: Seq<Seq<char>>, h: int, f: int, c: int)
    requires
        0 <= h < f < c < ls.len(),
        forall|i: int| 0 <= i < h ==> !is_title(#[trigger] ls[i]) && !is_fence(ls[i]),
        is_title(ls[h]),
        tells_usage(ls[h]),
        forall|i: int| h < i < f ==> !is_title(#[trigger] ls[i]) && !is_fence(ls[i]),
        is_fence(ls[f]),
        !is_title(ls[f]),
        forall|i: int|
            f < i < c ==> !is_title(#[trigger] ls[i]) && !is_fence(ls[i]) && !holds_command(ls[i]),
        !is_title(ls[c]),
        !is_fence(ls[c]),
        holds_command(ls[c]),
    ensures
        usage_command(ls, false, false) == Some(command_on(ls[c])),
{
    passed_over(ls, false, false, h);
    let a = ls.skip(h);
    assert(a[0] == ls[h]);
    usage_is_told(ls[h]);
    assert(a.skip(1) =~= ls.skip(h + 1));
    let b = ls.skip(h + 1);
    assert forall|i: int| 0 <= i < f - h - 1 implies !is_title(#[trigger] b[i]) && !is_fence(b[i]) by {
        assert(b[i] == ls[h + 1 + i]);
    }
    passed_over(b, true, false, f - h - 1);
    assert(b.skip(f - h - 1) =~= ls.skip(f));
    let d = ls.skip(f);
    assert(d[0] == ls[f]);
    assert(d.skip(1) =~= ls.skip(f + 1));
    let e = ls.skip(f + 1);
    assert forall|i: int| 0 <= i < c - f - 1 implies !is_title(#[trigger] e[i]) && !is_fence(e[i])
        && !holds_command(e[i]) by {
        assert(e[i] == ls[f + 1 + i]);
    }
    passed_over(e, true, true, c - f - 1);
    assert(e.skip(c - f - 1) =~= ls.skip(c));
    assert(ls.skip(c)[0] == ls[c]);
}

proof fn usage_is_told(line: Seq<char>)
    ensures
        crate::context::run::is_usage(trimmed(line).skip(1)) == tells_usage(line),
{
    let us = crate::context::run::usage_headings();
    let title = lowercase(trimmed(without_prefixes(trimmed(line).skip(1), "#"@)));
    assert(us[0] == "usage"@ && us[1] == "running"@ && us[2] == "run"@ && us[3]
        == "getting started"@ && us[4] == "quick start"@);
    assert(us.len() == 5);
    if tells_usage(line) {
        assert(exists|i: int| 0 <= i < us.len() && has_prefix(title, #[trigger] us[i]));
    }
}

proof fn passed_over(ls: Seq<Seq<char>>, under: bool, in_block: bool, n: int)
    requires
        0 <= n <= ls.len(),
        forall|i: int| 0 <= i < n ==> !is_title(#[trigger] ls[i]) && !is_fence(ls[i]),
        under && in_block ==> forall|i: int| 0 <= i < n ==> !holds_command(#[trigger] ls[i]),
    ensures
        usage_command(ls, under, in_block) == usage_command(ls.skip(n), under, in_block),
    decreases n,
{
    if n == 0 {
        assert(ls.skip(0) =~= ls);
    } else {
        let rest = ls.skip(1);
        assert(!is_title(ls[0]) && !is_fence(ls[0]));
        assert forall|i: int| 0 <= i < n - 1 implies !is_title(#[trigger] rest[i]) && !is_fence(
            rest[i],
        ) by {
            assert(rest[i] == ls[i + 1]);
        }
        if under && in_block {
            assert(!holds_command(ls[0]));
            assert forall|i: int| 0 <= i < n - 1 implies !holds_command(#[trigger] rest[i]) by {
                assert(rest[i] == ls[i + 1]);
            }
        }
        passed_over(rest, under, in_block, n - 1);
        assert(rest.skip(n - 1) =~= ls.skip(n));
    }
}

/// What stands outside a block, or under no such heading, is no command.
pub proof fn nothing_else_is_a_command(ls: Seq<Seq<char>>)
    requires
        (forall|i: int| 0 <= i < ls.len() ==> !(is_title(#[trigger] ls[i]) && tells_usage(ls[i])))
            || (forall|i: int| 0 <= i < ls.len() ==> !is_fence(#[trigger] ls[i])),
    ensures
        usage_command(ls, false, false) is None,
{
    if forall|i: int| 0 <= i < ls.len() ==> !is_fence(#[trigger] ls[i]) {
        never_in_a_block(ls, false);
    } else {
        never_under_usage(ls, false);
    }
}

proof fn never_in_a_block(ls: Seq<Seq<char>>, under: bool)
    requires
        forall|i: int| 0 <= i < ls.len() ==> !is_fence(#[trigger] ls[i]),
    ensures
        usage_command(ls, under, false) is None,
    decreases ls.len(),
{
    if ls.len() > 0 {
        let rest = ls.skip(1);
        assert(!is_fence(ls[0]));
        assert forall|i: int| 0 <= i < rest.len() implies !is_fence(#[trigger] rest[i]) by {
            assert(rest[i] == ls[i + 1]);
        }
        never_in_a_block(rest, under);
        never_in_a_block(rest, crate::context::run::is_usage(trimmed(ls[0]).skip(1)));
    }
}

proof fn never_under_usage(ls: Seq<Seq<char>>, in_block: bool)
    requires
        forall|i: int| 0 <= i < ls.len() ==> !(is_title(#[trigger] ls[i]) && tells_usage(ls[i])),
    ensures
        usage_command(ls, false, in_block) is None,
    decreases ls.len(),
{
    if ls.len() > 0 {
        let rest = ls.skip(1);
        assert(!(is_title(ls[0]) && tells_usage(ls[0])));
        assert forall|i: int| 0 <= i < rest.len() implies !(is_title(#[trigger] rest[i])
            && tells_usage(rest[i])) by {
            assert(rest[i] == ls[i + 1]);
        }
        usage_is_told(ls[0]);
        never_under_usage(rest, in_block);
        never_under_usage(rest, !in_block);
        never_under_usage(rest, false);
    }
}

/// Where each is looked for: processes in `Procfile`, the binary in `Cargo.toml`, and scripts under
/// `scripts` in `package.json`.
pub proof fn where_it_is_looked_for(t: Tree, name: Seq<char>)
    ensures
        t.text_at("Procfile"@) matches Some(text) ==> process_command(t) == first_process(
            lines_of(text),
        ),
        t.text_at("Procfile"@) is None ==> process_command(t) is None,
        t.text_at("Cargo.toml"@) matches Some(text) ==> crate_binary(t) == binary_name(
            lines_of(text),
            Section::Other,
            None,
        ),
        t.text_at("Cargo.toml"@) is None ==> crate_binary(t) is None,
        tree_names_script(t, name) <==> {
            &&& t.text_at("package.json"@) is Some
            &&& json_value(t.text_at("package.json"@)->0) is Some
            &&& json_member(json_value(t.text_at("package.json"@)->0)->0, "scripts"@) is Some
            &&& json_member(
                json_member(json_value(t.text_at("package.json"@)->0)->0, "scripts"@)->0,
                name,
            ) is Some
        },
{
}

} // verus!
