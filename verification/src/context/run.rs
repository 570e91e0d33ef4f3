//! How a project is tested, and how its program is started.

use vstd::prelude::*;
use vstd::string::StringExecFns;
use crate::context::tree::Tree;
use crate::json::{json_member, json_value, member, parse};
use crate::text::chars::{lowercase, same, substring, to_chars};
use crate::text::search::{
    char_position, has_prefix, has_prefix_of, seek_char, starts_with, starts_with_any, strip_prefix,
    trim_start_matches, without_prefixes,
};
use crate::text::split::{lines, lines_of, strs, texts, trim, trimmed};

pub mod laws;

verus! {

// ---------------------------------------------------------------- scripts

/// Whether a package description names a script.
pub open spec fn names_script(package: Seq<char>, name: Seq<char>) -> bool {
    match json_value(package) {
        Some(v) => match json_member(v, "scripts"@) {
            Some(scripts) => json_member(scripts, name) is Some,
            None => false,
        },
        None => false,
    }
}

/// Whether a package description names a script.
pub fn has_script(package: &str, name: &str) -> (r: bool)
    ensures
        r == names_script(package@, name@),
{
    match parse(package) {
        Some(v) => match member(&v, "scripts") {
            Some(scripts) => member(scripts, name).is_some(),
            None => false,
        },
        None => false,
    }
}

/// Whether the tree's package description names a script.
pub open spec fn tree_names_script(tree: Tree, name: Seq<char>) -> bool {
    match tree.text_at("package.json"@) {
        Some(package) => names_script(package, name),
        None => false,
    }
}

/// Whether the tree's package description names a script.
pub fn tree_has_script(tree: &Tree, name: &str) -> (r: bool)
    ensures
        r == tree_names_script(*tree, name@),
{
    match tree.read("package.json") {
        Some(package) => has_script(package.as_str(), name),
        None => false,
    }
}

// ---------------------------------------------------------------- tests

/// Whether one of the lines of `text` begins with `front`.
pub open spec fn some_line_starts(text: Seq<char>, front: Seq<char>) -> bool {
    exists|i: int| 0 <= i < lines_of(text).len() && has_prefix(#[trigger] lines_of(text)[i], front)
}

/// Whether one of the lines of `text` begins with `front`.
pub fn any_line_starts(text: &str, front: &str) -> (r: bool)
    ensures
        r == some_line_starts(text@, front@),
{
    let all = lines(text);
    let ghost ls = texts(all@);
    let mut i: usize = 0;
    while i < all.len()
        invariant
            i <= all@.len(),
            ls == texts(all@),
            ls == lines_of(text@),
            forall|j: int| 0 <= j < i ==> !has_prefix(#[trigger] ls[j], front@),
        decreases all@.len() - i,
    {
        assert(ls[i as int] == all@[i as int]@);
        if starts_with(all[i].as_str(), front) {
            assert(has_prefix(lines_of(text@)[i as int], front@));
            return true;
        }
        i += 1;
    }
    false
}

/// Whether the file at `path` can be read and has a line that begins with `front`.
pub open spec fn file_has_line(tree: Tree, path: Seq<char>, front: Seq<char>) -> bool {
    match tree.text_at(path) {
        Some(text) => some_line_starts(text, front),
        None => false,
    }
}

fn tree_file_has_line(tree: &Tree, path: &str, front: &str) -> (r: bool)
    ensures
        r == file_has_line(*tree, path@, front@),
{
    match tree.read(path) {
        Some(text) => any_line_starts(text.as_str(), front),
        None => false,
    }
}

/// The project's test invocation, where `npm_test` says whether its package
/// description names a test script.
pub open spec fn test_invocation(tree: Tree, npm_test: bool) -> Option<Seq<char>> {
    if tree.has_path("bin/rails"@) {
        Some(
            if tree.has_path("spec"@) {
                "bundle exec rspec"@
            } else {
                "bin/rails test"@
            },
        )
    } else if tree.has_path("Cargo.toml"@) {
        Some("cargo test"@)
    } else if tree.has_path("justfile"@) {
        if file_has_line(tree, "justfile"@, "test:"@) {
            Some("just test"@)
        } else {
            None
        }
    } else if tree.has_path("Makefile"@) {
        if file_has_line(tree, "Makefile"@, "test:"@) {
            Some("make test"@)
        } else {
            None
        }
    } else if tree.has_path("package.json"@) && npm_test {
        Some("npm test"@)
    } else {
        None
    }
}

/// Whether two optional texts are the same.
pub open spec fn is_text(r: Option<String>, model: Option<Seq<char>>) -> bool {
    match r {
        Some(s) => model == Some(s@),
        None => model is None,
    }
}

/// The project's test invocation, where `npm_test` says whether its package
/// description names a test script.
pub fn choose_test_command(tree: &Tree, npm_test: bool) -> (r: Option<String>)
    ensures
        is_text(r, test_invocation(*tree, npm_test)),
{
    if tree.present("bin/rails") {
        return if tree.present("spec") {
            Some("bundle exec rspec".to_owned())
        } else {
            Some("bin/rails test".to_owned())
        };
    }
    if tree.present("Cargo.toml") {
        return Some("cargo test".to_owned());
    }
    if tree.present("justfile") {
        return if tree_file_has_line(tree, "justfile", "test:") {
            Some("just test".to_owned())
        } else {
            None
        };
    }
    if tree.present("Makefile") {
        return if tree_file_has_line(tree, "Makefile", "test:") {
            Some("make test".to_owned())
        } else {
            None
        };
    }
    if tree.present("package.json") && npm_test {
        return Some("npm test".to_owned());
    }
    None
}

/// The project's test invocation. Without one, a question that is to be checked by
/// running something can only be invented, which is the failure it exists to avoid.
pub fn test_command(tree: &Tree) -> (r: Option<String>)
    ensures
        is_text(r, test_invocation(*tree, tree_names_script(*tree, "test"@))),
{
    choose_test_command(tree, tree_has_script(tree, "test"))
}

// ---------------------------------------------------------------- processes

/// Whether a line of a process file describes a process: it has a colon.
pub open spec fn describes_process(line: Seq<char>) -> bool {
    char_position(line, ':') < line.len() && trimmed(line).len() > 0
}

/// The command of the first process of a process file, where there is one. The
/// process is what starts the program; the label in front of it is not the shell's.
pub open spec fn first_process(ls: Seq<Seq<char>>) -> Option<Seq<char>>
    decreases ls.len(),
{
    if ls.len() == 0 {
        None
    } else if describes_process(ls[0]) {
        let cmd = trimmed(ls[0].skip(char_position(ls[0], ':') + 1));
        if cmd.len() > 0 {
            Some(cmd)
        } else {
            None
        }
    } else {
        first_process(ls.skip(1))
    }
}

/// The command of the first process of a process file, where there is one.
pub fn procfile_command(text: &str) -> (r: Option<String>)
    ensures
        is_text(r, first_process(lines_of(text@))),
{
    let all = lines(text);
    let ghost ls = texts(all@);
    let mut i: usize = 0;
    proof {
        assert(ls.skip(0) =~= ls);
    }
    while i < all.len()
        invariant
            i <= all@.len(),
            ls == texts(all@),
            ls == lines_of(text@),
            first_process(ls) == first_process(ls.skip(i as int)),
        decreases all@.len() - i,
    {
        let line = all[i].as_str();
        proof {
            assert(ls.skip(i as int).skip(1) =~= ls.skip(i + 1));
            assert(ls.skip(i as int)[0] == line@);
        }
        let cs = to_chars(line);
        let colon: usize = seek_char(&cs, ':');
        if colon < cs.len() && !trim(line).as_str().is_empty() {
            let rest = substring(&cs, colon + 1, cs.len());
            proof {
                assert(rest@ =~= line@.skip(colon + 1));
            }
            let cmd = trim(rest.as_str());
            return if cmd.as_str().is_empty() {
                None
            } else {
                Some(cmd)
            };
        }
        i += 1;
    }
    None
}

// ---------------------------------------------------------------- crates

/// `s` without quotation marks at its front.
pub open spec fn unquoted_start(s: Seq<char>) -> Seq<char>
    decreases s.len(),
{
    if s.len() > 0 && s[0] == '"' {
        unquoted_start(s.skip(1))
    } else {
        s
    }
}

/// `s` without quotation marks at its end.
pub open spec fn unquoted_end(s: Seq<char>) -> Seq<char>
    decreases s.len(),
{
    if s.len() > 0 && s.last() == '"' {
        unquoted_end(s.drop_last())
    } else {
        s
    }
}

/// What stands behind the first equals sign of a line, without white space and
/// quotation marks around it, where that is anything.
pub open spec fn assigned_value(line: Seq<char>) -> Option<Seq<char>> {
    let n = char_position(line, '=');
    if n >= line.len() {
        None
    } else {
        let value = unquoted_end(unquoted_start(trimmed(line.skip(n + 1))));
        if value.len() > 0 {
            Some(value)
        } else {
            None
        }
    }
}

fn read_assigned(line: &str) -> (r: Option<String>)
    ensures
        is_text(r, assigned_value(line@)),
{
    let cs = to_chars(line);
    let n: usize = seek_char(&cs, '=');
    if n >= cs.len() {
        return None;
    }
    let rest = substring(&cs, n + 1, cs.len());
    proof {
        assert(rest@ =~= line@.skip(n + 1));
    }
    let value = unquote(trim(rest.as_str()).as_str());
    if value.as_str().is_empty() {
        None
    } else {
        Some(value)
    }
}

fn unquote(s: &str) -> (r: String)
    ensures
        r@ == unquoted_end(unquoted_start(s@)),
{
    let cs = to_chars(s);
    let n: usize = cs.len();
    let mut a: usize = 0;
    proof {
        assert(cs@.skip(0) =~= cs@);
    }
    while a < n && cs[a] == '"'
        invariant
            a <= n == cs@.len(),
            unquoted_start(cs@) == unquoted_start(cs@.skip(a as int)),
        decreases n - a,
    {
        proof {
            assert(cs@.skip(a as int).skip(1) =~= cs@.skip(a + 1));
        }
        a += 1;
    }
    let ghost front = cs@.skip(a as int);
    assert(front == unquoted_start(cs@));
    let mut b: usize = n;
    proof {
        assert(cs@.subrange(a as int, b as int) =~= front);
    }
    while a < b && cs[b - 1] == '"'
        invariant
            a <= b <= n == cs@.len(),
            unquoted_end(front) == unquoted_end(cs@.subrange(a as int, b as int)),
        decreases b,
    {
        proof {
            assert(cs@.subrange(a as int, b as int).drop_last() =~= cs@.subrange(
                a as int,
                b - 1,
            ));
        }
        b -= 1;
    }
    substring(&cs, a, b)
}

/// Which part of a crate description a line stands in.
#[derive(Clone, Copy, PartialEq, Eq, Structural)]
pub enum Section {
    Bin,
    Package,
    Other,
}

/// The part that a heading opens.
pub open spec fn section_of(heading: Seq<char>) -> Section {
    if heading == "[[bin]]"@ {
        Section::Bin
    } else if heading == "[package]"@ {
        Section::Package
    } else {
        Section::Other
    }
}

/// The name of the binary that a crate description speaks of from here on, where the
/// lines so far stand in `section` and gave the package the name `package`.
pub open spec fn binary_name(
    ls: Seq<Seq<char>>,
    section: Section,
    package: Option<Seq<char>>,
) -> Option<Seq<char>>
    decreases ls.len(),
{
    if ls.len() == 0 {
        package
    } else {
        let t = trimmed(ls[0]);
        if has_prefix(t, "["@) {
            binary_name(ls.skip(1), section_of(t), package)
        } else if !has_prefix(t, "name"@) || section == Section::Other {
            binary_name(ls.skip(1), section, package)
        } else if section == Section::Bin {
            assigned_value(t)
        } else {
            binary_name(ls.skip(1), section, assigned_value(t))
        }
    }
}

/// The name of the first explicit binary of a crate, or the package name where it has
/// none: such a binary is named after its package.
pub fn cargo_bin_name(cargo: &str) -> (r: Option<String>)
    ensures
        is_text(r, binary_name(lines_of(cargo@), Section::Other, None)),
{
    let all = lines(cargo);
    let ghost ls = texts(all@);
    let mut section = Section::Other;
    let mut package: Option<String> = None;
    let ghost mut package_text: Option<Seq<char>> = None;
    let mut i: usize = 0;
    proof {
        assert(ls.skip(0) =~= ls);
    }
    while i < all.len()
        invariant
            i <= all@.len(),
            ls == texts(all@),
            ls == lines_of(cargo@),
            is_text(package, package_text),
            binary_name(ls, Section::Other, None) == binary_name(
                ls.skip(i as int),
                section,
                package_text,
            ),
        decreases all@.len() - i,
    {
        let t = trim(all[i].as_str());
        proof {
            assert(ls.skip(i as int).skip(1) =~= ls.skip(i + 1));
            assert(ls.skip(i as int)[0] == all@[i as int]@);
        }
        if starts_with(t.as_str(), "[") {
            section = if same(t.as_str(), "[[bin]]") {
                Section::Bin
            } else if same(t.as_str(), "[package]") {
                Section::Package
            } else {
                Section::Other
            };
        } else if starts_with(t.as_str(), "name") {
            match section {
                Section::Bin => {
                    return read_assigned(t.as_str());
                },
                Section::Package => {
                    package = read_assigned(t.as_str());
                    proof {
                        package_text = assigned_value(t@);
                    }
                },
                Section::Other => {},
            }
        }
        i += 1;
    }
    package
}

// ---------------------------------------------------------------- readme

/// How headings start that vouch for a way to run the program.
pub open spec fn usage_headings() -> Seq<Seq<char>> {
    seq!["usage"@, "running"@, "run"@, "getting started"@, "quick start"@]
}

/// Whether a heading, without its first hash, reads like usage.
pub open spec fn is_usage(title: Seq<char>) -> bool {
    has_prefix_of(lowercase(trimmed(without_prefixes(title, "#"@))), usage_headings())
}

/// A line of a shell block, without its prompt.
pub open spec fn shell_command(t: Seq<char>) -> Seq<char> {
    trimmed(without_prefixes(t, "$"@))
}

/// The first command of the first shell block under a heading that reads like usage,
/// where `under` says whether the lines so far stand under one, and `in_block`
/// whether they stand in a block. What follows a block has left the part that the
/// heading vouched for.
pub open spec fn usage_command(ls: Seq<Seq<char>>, under: bool, in_block: bool) -> Option<Seq<char>>
    decreases ls.len(),
{
    if ls.len() == 0 {
        None
    } else {
        let t = trimmed(ls[0]);
        let rest = ls.skip(1);
        if has_prefix(t, "#"@) {
            usage_command(rest, is_usage(t.skip(1)), false)
        } else if has_prefix(t, "```"@) {
            usage_command(rest, under && !in_block, !in_block)
        } else if under && in_block && shell_command(t).len() > 0 && !has_prefix(
            shell_command(t),
            "#"@,
        ) {
            Some(shell_command(t))
        } else {
            usage_command(rest, under, in_block)
        }
    }
}

fn title_is_usage(title: &str) -> (r: bool)
    ensures
        r == is_usage(title@),
{
    let headings: [&str; 5] = ["usage", "running", "run", "getting started", "quick start"];
    proof {
        assert(strs(headings@) =~= usage_headings());
    }
    let bare = trim(trim_start_matches(title, "#").as_str());
    starts_with_any(bare.as_str().to_lowercase().as_str(), &headings)
}

/// The first command of the first shell block under a heading that reads like usage.
/// The heading is required: the first block of a readme is as often an install line
/// or an example of the library's interface.
pub fn readme_usage(readme: &str) -> (r: Option<String>)
    ensures
        is_text(r, usage_command(lines_of(readme@), false, false)),
{
    let all = lines(readme);
    let ghost ls = texts(all@);
    let mut under = false;
    let mut in_block = false;
    let mut i: usize = 0;
    proof {
        assert(ls.skip(0) =~= ls);
        reveal_strlit("#");
    }
    while i < all.len()
        invariant
            i <= all@.len(),
            ls == texts(all@),
            ls == lines_of(readme@),
            "#"@.len() == 1,
            usage_command(ls, false, false) == usage_command(ls.skip(i as int), under, in_block),
        decreases all@.len() - i,
    {
        let t = trim(all[i].as_str());
        proof {
            assert(ls.skip(i as int).skip(1) =~= ls.skip(i + 1));
            assert(ls.skip(i as int)[0] == all@[i as int]@);
        }
        if let Some(title) = strip_prefix(t.as_str(), "#") {
            under = title_is_usage(title.as_str());
            in_block = false;
        } else if starts_with(t.as_str(), "```") {
            if in_block {
                under = false;
            }
            in_block = !in_block;
        } else if under && in_block {
            let cmd = trim(trim_start_matches(t.as_str(), "$").as_str());
            if !cmd.as_str().is_empty() && !starts_with(cmd.as_str(), "#") {
                return Some(cmd);
            }
        }
        i += 1;
    }
    None
}

// ---------------------------------------------------------------- starting it

/// The first of `run`, `dev` and `serve` that a task file has a task for.
pub open spec fn task_command(tree: Tree) -> Option<Seq<char>> {
    if file_has_line(tree, "justfile"@, "run:"@) {
        Some("just run"@)
    } else if file_has_line(tree, "justfile"@, "dev:"@) {
        Some("just dev"@)
    } else if file_has_line(tree, "justfile"@, "serve:"@) {
        Some("just serve"@)
    } else {
        None
    }
}

/// The command of the tree's process file.
pub open spec fn process_command(tree: Tree) -> Option<Seq<char>> {
    match tree.text_at("Procfile"@) {
        Some(text) => first_process(lines_of(text)),
        None => None,
    }
}

/// The binary that the tree's crate description names.
pub open spec fn crate_binary(tree: Tree) -> Option<Seq<char>> {
    match tree.text_at("Cargo.toml"@) {
        Some(text) => binary_name(lines_of(text), Section::Other, None),
        None => None,
    }
}

/// How the program is started, where `npm_dev` and `npm_start` say which scripts the
/// package description names.
pub open spec fn invocation(tree: Tree, npm_dev: bool, npm_start: bool) -> Option<Seq<char>> {
    if npm_dev {
        Some("npm run dev"@)
    } else if npm_start {
        Some("npm run start"@)
    } else if tree.has_path("bin/dev"@) {
        Some("bin/dev"@)
    } else if process_command(tree) is Some {
        process_command(tree)
    } else if task_command(tree) is Some {
        task_command(tree)
    } else if crate_binary(tree) is Some {
        Some("cargo run --bin "@ + crate_binary(tree)->0)
    } else {
        match tree.text_at("README.md"@) {
            Some(text) => usage_command(lines_of(text), false, false),
            None => None,
        }
    }
}

/// How the program is started, where `npm_dev` and `npm_start` say which scripts the
/// package description names.
pub fn choose_invocation(tree: &Tree, npm_dev: bool, npm_start: bool) -> (r: Option<String>)
    ensures
        is_text(r, invocation(*tree, npm_dev, npm_start)),
{
    if npm_dev {
        return Some("npm run dev".to_owned());
    }
    if npm_start {
        return Some("npm run start".to_owned());
    }
    if tree.present("bin/dev") {
        return Some("bin/dev".to_owned());
    }
    if let Some(text) = tree.read("Procfile") {
        let cmd = procfile_command(text.as_str());
        if cmd.is_some() {
            return cmd;
        }
    }
    if tree_file_has_line(tree, "justfile", "run:") {
        return Some("just run".to_owned());
    }
    if tree_file_has_line(tree, "justfile", "dev:") {
        return Some("just dev".to_owned());
    }
    if tree_file_has_line(tree, "justfile", "serve:") {
        return Some("just serve".to_owned());
    }
    if let Some(text) = tree.read("Cargo.toml") {
        if let Some(name) = cargo_bin_name(text.as_str()) {
            return Some("cargo run --bin ".to_owned().concat(name.as_str()));
        }
    }
    match tree.read("README.md") {
        Some(text) => readme_usage(text.as_str()),
        None => None,
    }
}

/// How the real program is started, as a user starts it.
///
/// Deliberately not the test command. That is the thing that gets run instead of the
/// program, which is the habit this exists to break.
pub fn run_invocation(tree: &Tree) -> (r: Option<String>)
    ensures
        is_text(
            r,
            invocation(
                *tree,
                tree_names_script(*tree, "dev"@),
                tree_names_script(*tree, "start"@),
            ),
        ),
{
    choose_invocation(tree, tree_has_script(tree, "dev"), tree_has_script(tree, "start"))
}

} // verus!
