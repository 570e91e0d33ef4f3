//! Settings, and the base that a branch is compared with.

use vstd::prelude::*;
use vstd::string::StringExecFns;
use crate::llm::generate::optional_text;
use crate::text::chars::same;
use crate::text::search::{ends_with, has_prefix, has_suffix, starts_with, strip_prefix, trim_start_matches, without_prefixes};
use crate::text::split::{texts, texts_push, trim, trimmed};

pub mod laws;

verus! {

/// What can be set for one repository.
#[derive(Debug)]
pub struct RepoConfig {
    pub base: Option<String>,
}

/// Which model writes the questions and which grades them.
///
/// They must differ. One model that writes the question, the reference and the grade lets a
/// wrong premise through unchallenged; two decorrelate it. Generation is the larger share of
/// the bill, so it is the first thing to lower when usage bites.
#[derive(Debug)]
pub struct Models {
    pub generate: String,
    pub judge: String,
}

/// A repository that the dashboard watches.
#[derive(Debug)]
pub struct Watch {
    pub path: String,
}

/// The settings.
#[derive(Debug)]
pub struct Config {
    /// What is set for each repository, by its name. No name occurs twice.
    pub repo: Vec<(String, RepoConfig)>,
    pub models: Models,
    /// Repositories the dashboard watches for pull requests without a gate. Gates carry
    /// their own path, so this only matters for discovery.
    pub watch: Vec<Watch>,
}

fn default_generate() -> (r: String)
    ensures
        r@ == "sonnet"@,
{
    "sonnet".to_owned()
}

fn default_judge() -> (r: String)
    ensures
        r@ == "haiku"@,
{
    "haiku".to_owned()
}

impl Default for Models {
    fn default() -> (r: Self)
        ensures
            r.generate@ == "sonnet"@,
            r.judge@ == "haiku"@,
            r.generate@ != r.judge@,
    {
        proof {
            reveal_strlit("sonnet");
            reveal_strlit("haiku");
            assert("sonnet"@.len() != "haiku"@.len());
        }
        Models { generate: default_generate(), judge: default_judge() }
    }
}

impl Models {
    /// What is said where one model both writes the questions and grades the answers. The
    /// two must differ.
    pub fn warning(&self) -> (r: Option<String>)
        ensures
            match r {
                Some(s) => self.generate@ == self.judge@ && s@ == "warning: "@ + self.generate@
                    + " both writes and grades the questions — set two different models"@,
                None => self.generate@ != self.judge@,
            },
    {
        if same(self.generate.as_str(), self.judge.as_str()) {
            Some(
                "warning: ".to_owned().concat(self.generate.as_str()).concat(
                    " both writes and grades the questions — set two different models",
                ),
            )
        } else {
            None
        }
    }

    /// The models as they are set, each by its default where it is not.
    pub fn from_parts(generate: Option<String>, judge: Option<String>) -> (r: Self)
        ensures
            match generate {
                Some(s) => r.generate == s,
                None => r.generate@ == "sonnet"@,
            },
            match judge {
                Some(s) => r.judge == s,
                None => r.judge@ == "haiku"@,
            },
    {
        Models {
            generate: match generate {
                Some(s) => s,
                None => default_generate(),
            },
            judge: match judge {
                Some(s) => s,
                None => default_judge(),
            },
        }
    }
}

impl Default for Config {
    fn default() -> (r: Self)
        ensures
            r.repo@.len() == 0,
            r.models.generate@ == "sonnet"@,
            r.models.judge@ == "haiku"@,
            r.watch@.len() == 0,
            r.wf(),
    {
        Config { repo: Vec::new(), models: Models::default(), watch: Vec::new() }
    }
}

impl Config {
    /// No repository is named twice.
    pub open spec fn wf(self) -> bool {
        forall|i: int, j: int|
            0 <= i < j < self.repo@.len() ==> (#[trigger] self.repo@[i]).0@ != (
            #[trigger] self.repo@[j]).0@
    }

    /// The base that is set for a repository.
    pub open spec fn base_of(self, slug: Seq<char>) -> Option<Seq<char>> {
        base_in(self.repo@, slug)
    }
}

/// The base that is set for a repository.
pub open spec fn base_in(repos: Seq<(String, RepoConfig)>, slug: Seq<char>) -> Option<Seq<char>>
    decreases repos.len(),
{
    if repos.len() == 0 {
        None
    } else if repos[0].0@ == slug {
        optional_text(repos[0].1.base)
    } else {
        base_in(repos.skip(1), slug)
    }
}

// ---------------------------------------------------------------- paths

/// A path behind a directory: as it is where it is absolute, behind a slash otherwise.
pub open spec fn path_in(dir: Seq<char>, path: Seq<char>) -> Seq<char> {
    if has_prefix(path, "/"@) {
        path
    } else if dir.len() == 0 || has_suffix(dir, "/"@) {
        dir + path
    } else {
        dir + "/"@ + path
    }
}

/// A path behind a directory: as it is where it is absolute, behind a slash otherwise.
pub fn join_path(dir: &str, path: &str) -> (r: String)
    ensures
        r@ == path_in(dir@, path@),
{
    if starts_with(path, "/") {
        path.to_owned()
    } else if dir.is_empty() || ends_with(dir, "/") {
        dir.to_owned().concat(path)
    } else {
        dir.to_owned().concat("/").concat(path)
    }
}

/// A path with a tilde at its front taken for the home directory, where that is known.
pub open spec fn expanded_path(path: Seq<char>, home: Option<Seq<char>>) -> Seq<char> {
    if has_prefix(path, "~/"@) && home is Some {
        path_in(home->0, path.skip(2))
    } else {
        path
    }
}

/// The text of an optional slice.
pub open spec fn slice_text(s: Option<&str>) -> Option<Seq<char>> {
    match s {
        Some(s) => Some(s@),
        None => None,
    }
}

impl Watch {
    /// The path, with a tilde at its front taken for the home directory, since settings are
    /// written by hand.
    pub fn expanded(&self, home: Option<&str>) -> (r: String)
        ensures
            r@ == expanded_path(self.path@, slice_text(home)),
    {
        proof {
            reveal_strlit("~/");
        }
        match (strip_prefix(self.path.as_str(), "~/"), home) {
            (Some(rest), Some(home)) => join_path(home, rest.as_str()),
            _ => self.path.clone(),
        }
    }
}

/// The places where settings may lie, the most likely first.
pub open spec fn config_places(
    xdg: Option<Seq<char>>,
    home: Option<Seq<char>>,
    platform: Option<Seq<char>>,
) -> Seq<Seq<char>> {
    let one = match xdg {
        Some(dir) => if trimmed(dir).len() > 0 {
            seq![path_in(dir, "shipgate/config.toml"@)]
        } else {
            Seq::empty()
        },
        None => Seq::empty(),
    };
    let two = match home {
        Some(dir) => seq![path_in(dir, ".config/shipgate/config.toml"@)],
        None => Seq::empty(),
    };
    let three = match platform {
        Some(dir) => seq![path_in(dir, "config.toml"@)],
        None => Seq::empty(),
    };
    one + two + three
}

/// The places where settings may lie: the directory that the environment names, then the
/// one below the home directory, then the platform's own, which is not where anyone looks
/// for the settings of a command-line tool.
pub fn config_candidates(xdg: Option<&str>, home: Option<&str>, platform: Option<&str>) -> (r: Vec<
    String,
>)
    ensures
        texts(r@) == config_places(slice_text(xdg), slice_text(home), slice_text(platform)),
{
    broadcast use texts_push;

    let mut out: Vec<String> = Vec::new();
    assert(texts(out@) =~= Seq::empty());
    if let Some(dir) = xdg {
        if !trim(dir).as_str().is_empty() {
            out.push(join_path(dir, "shipgate/config.toml"));
        }
    }
    if let Some(dir) = home {
        out.push(join_path(dir, ".config/shipgate/config.toml"));
    }
    if let Some(dir) = platform {
        out.push(join_path(dir, "config.toml"));
    }
    assert(texts(out@) =~= config_places(slice_text(xdg), slice_text(home), slice_text(platform)));
    out
}

/// The first of the texts that is marked.
pub open spec fn first_marked(items: Seq<Seq<char>>, marks: Seq<bool>) -> Option<Seq<char>>
    decreases items.len(),
{
    if items.len() == 0 || marks.len() == 0 {
        None
    } else if marks[0] {
        Some(items[0])
    } else {
        first_marked(items.skip(1), marks.skip(1))
    }
}

fn find_marked(items: &[String], marks: &[bool]) -> (r: Option<usize>)
    ensures
        match r {
            Some(i) => i < items@.len() && first_marked(texts(items@), marks@) == Some(
                items@[i as int]@,
            ),
            None => first_marked(texts(items@), marks@) is None,
        },
{
    let ghost ts = texts(items@);
    let mut i: usize = 0;
    proof {
        assert(ts.skip(0) =~= ts);
        assert(marks@.skip(0) =~= marks@);
    }
    while i < items.len() && i < marks.len()
        invariant
            i <= items@.len(),
            i <= marks@.len(),
            ts == texts(items@),
            first_marked(ts, marks@) == first_marked(ts.skip(i as int), marks@.skip(i as int)),
        decreases items@.len() - i,
    {
        proof {
            assert(ts.skip(i as int).skip(1) =~= ts.skip(i + 1));
            assert(marks@.skip(i as int).skip(1) =~= marks@.skip(i + 1));
            assert(ts.skip(i as int)[0] == items@[i as int]@);
        }
        if marks[i] {
            return Some(i);
        }
        i += 1;
    }
    None
}

/// Where the settings lie, given which of the places exist: the first of those, or the
/// first of all. A file that exists wins over one that is merely possible.
pub fn config_path(candidates: &[String], present: &[bool]) -> (r: Option<String>)
    ensures
        optional_text(r) == match first_marked(texts(candidates@), present@) {
            Some(path) => Some(path),
            None => if candidates@.len() > 0 {
                Some(candidates@[0]@)
            } else {
                None
            },
        },
{
    match find_marked(candidates, present) {
        Some(i) => Some(candidates[i].clone()),
        None => if candidates.len() > 0 {
            Some(candidates[0].clone())
        } else {
            None
        },
    }
}

// ---------------------------------------------------------------- bases

/// A branch of a remote.
pub open spec fn remote_branch(remote: Seq<char>, branch: Seq<char>) -> Seq<char> {
    remote + "/"@ + branch
}

/// The base that a pull request names. It is authoritative.
pub fn own_base(remote: &str, branch: &str) -> (r: String)
    ensures
        r@ == remote_branch(remote@, branch@),
{
    remote.to_owned().concat("/").concat(branch)
}

/// The bases to try where a pull request's own is not known here: the one that is set for
/// the repository, then the usual ones.
pub open spec fn base_places(remote: Seq<char>, set: Option<Seq<char>>) -> Seq<Seq<char>> {
    let usual = seq![
        remote_branch(remote, "develop"@),
        remote_branch(remote, "master"@),
        remote_branch(remote, "main"@),
    ];
    match set {
        Some(base) => seq![remote_branch(remote, base)] + usual,
        None => usual,
    }
}

/// The bases to try where a pull request's own is not known here.
pub fn base_candidates(remote: &str, repo_slug: &str, cfg: &Config) -> (r: Vec<String>)
    ensures
        texts(r@) == base_places(remote@, cfg.base_of(repo_slug@)),
{
    broadcast use texts_push;

    let mut out: Vec<String> = Vec::new();
    let ghost repos = cfg.repo@;
    let mut i: usize = 0;
    proof {
        assert(texts(out@) =~= Seq::empty());
        assert(repos.skip(0) =~= repos);
    }
    let mut set: Option<String> = None;
    while i < cfg.repo.len()
        invariant_except_break
            i <= cfg.repo@.len(),
            repos == cfg.repo@,
            set is None,
            base_in(repos, repo_slug@) == base_in(repos.skip(i as int), repo_slug@),
        ensures
            optional_text(set) == base_in(repos, repo_slug@),
        decreases cfg.repo@.len() - i,
    {
        proof {
            assert(repos.skip(i as int).skip(1) =~= repos.skip(i + 1));
        }
        if same(cfg.repo[i].0.as_str(), repo_slug) {
            set = match &cfg.repo[i].1.base {
                Some(base) => Some(base.clone()),
                None => None,
            };
            break;
        }
        i += 1;
    }
    if let Some(base) = set {
        out.push(own_base(remote, base.as_str()));
    }
    out.push(own_base(remote, "develop"));
    out.push(own_base(remote, "master"));
    out.push(own_base(remote, "main"));
    assert(texts(out@) =~= base_places(remote@, cfg.base_of(repo_slug@)));
    out
}

/// The base to take, given which of the candidates are known here and, where none is, what
/// the remote's own head is said to be.
pub fn fallback_base(candidates: &[String], known: &[bool], remote_head: &str) -> (r: String)
    ensures
        r@ == match first_marked(texts(candidates@), known@) {
            Some(base) => base,
            None => without_prefixes(trimmed(remote_head@), "refs/remotes/"@),
        },
{
    match find_marked(candidates, known) {
        Some(i) => candidates[i].clone(),
        None => trim_start_matches(trim(remote_head).as_str(), "refs/remotes/"),
    }
}

/// What is set for a repository comes before the usual bases: where it is known, it is
/// taken.
pub proof fn the_set_base_wins(remote: Seq<char>, set: Seq<char>, known: Seq<bool>)
    requires
        known.len() > 0,
        known[0],
    ensures
        first_marked(base_places(remote, Some(set)), known) == Some(remote_branch(remote, set)),
{
}

} // verus!
