//! What holds of settings and of where they are looked for, whatever they are.

use vstd::prelude::*;
use crate::config::{
    base_in, base_places, config_places, expanded_path, first_marked, path_in, RepoConfig,
};
use crate::text::search::has_prefix;
use crate::text::split::trimmed;

verus! {

/// The base of a repository is the one set under its own name, the first where several are.
pub proof fn a_base_is_by_its_repository(repos: Seq<(String, RepoConfig)>, slug: Seq<char>, i: int)
    ensures
        0 <= i < repos.len() && repos[i].0@ == slug && (forall|j: int|
            0 <= j < i ==> (#[trigger] repos[j]).0@ != slug) ==> match repos[i].1.base {
            Some(base) => base_in(repos, slug) == Some(base@),
            None => base_in(repos, slug) is None,
        },
        (forall|j: int| 0 <= j < repos.len() ==> (#[trigger] repos[j]).0@ != slug) ==> base_in(
            repos,
            slug,
        ) is None,
    decreases repos.len(),
{
    if repos.len() > 0 {
        let rest = repos.skip(1);
        a_base_is_by_its_repository(rest, slug, i - 1);
        if repos[0].0@ != slug {
            if 0 <= i < repos.len() && repos[i].0@ == slug && (forall|j: int|
                0 <= j < i ==> (#[trigger] repos[j]).0@ != slug) {
                assert(rest[i - 1] == repos[i]);
                assert forall|j: int| 0 <= j < i - 1 implies (#[trigger] rest[j]).0@ != slug by {
                    assert(rest[j] == repos[j + 1]);
                }
            }
            if forall|j: int| 0 <= j < repos.len() ==> (#[trigger] repos[j]).0@ != slug {
                assert forall|j: int| 0 <= j < rest.len() implies (#[trigger] rest[j]).0@ != slug by {
                    assert(rest[j] == repos[j + 1]);
                }
            }
        } else if forall|j: int| 0 <= j < repos.len() ==> (#[trigger] repos[j]).0@ != slug {
            assert(repos[0].0@ != slug);
        } else if 0 < i < repos.len() && (forall|j: int|
            0 <= j < i ==> (#[trigger] repos[j]).0@ != slug) {
            assert(repos[0].0@ != slug);
        }
    }
}

/// A path in a directory: behind one slash, and by itself where it starts at the root.
pub proof fn what_a_path_in_a_directory_is(dir: Seq<char>, path: Seq<char>)
    ensures
        path.len() > 0 && path[0] == '/' ==> path_in(dir, path) == path,
        (path.len() == 0 || path[0] != '/') && dir.len() > 0 && dir.last() != '/' ==> path_in(
            dir,
            path,
        ) == dir + "/"@ + path,
        (path.len() == 0 || path[0] != '/') && (dir.len() == 0 || dir.last() == '/') ==> path_in(
            dir,
            path,
        ) == dir + path,
{
    reveal_strlit("/");
    if path.len() > 0 {
        assert(path.subrange(0, 1)[0] == path[0]);
        if path[0] == '/' {
            assert(path.subrange(0, 1) =~= "/"@);
        }
    }
    if dir.len() > 0 {
        assert(dir.subrange(dir.len() - 1, dir.len() as int)[0] == dir.last());
        if dir.last() == '/' {
            assert(dir.subrange(dir.len() - 1, dir.len() as int) =~= "/"@);
        }
    }
}

/// A tilde in front of a slash stands for the home directory, where that is known; nowhere else.
pub proof fn what_a_tilde_stands_for(rest: Seq<char>, path: Seq<char>, home: Seq<char>)
    requires
        home.len() > 0,
        home.last() != '/',
        rest.len() == 0 || rest[0] != '/',
        path.len() < 2 || path[0] != '~' || path[1] != '/',
    ensures
        expanded_path("~/"@ + rest, Some(home)) == home + "/"@ + rest,
        expanded_path("~/"@ + rest, None) == "~/"@ + rest,
        expanded_path(path, Some(home)) == path,
{
    reveal_strlit("~/");
    let s = "~/"@ + rest;
    assert(s.subrange(0, 2) =~= "~/"@);
    assert(s.skip(2) =~= rest);
    what_a_path_in_a_directory_is(home, rest);
    if has_prefix(path, "~/"@) {
        assert(path.subrange(0, 2)[0] == path[0]);
        assert(path.subrange(0, 2)[1] == path[1]);
    }
}

/// Settings are looked for in the directory set for them, then under the home directory, then where
/// the platform keeps them; a place that is not known is left out.
pub proof fn where_settings_are_looked_for(xdg: Seq<char>, home: Seq<char>, platform: Seq<char>)
    ensures
        trimmed(xdg).len() > 0 ==> config_places(Some(xdg), Some(home), Some(platform)) == seq![
            path_in(xdg, "shipgate/config.toml"@),
            path_in(home, ".config/shipgate/config.toml"@),
            path_in(platform, "config.toml"@),
        ],
        trimmed(xdg).len() == 0 ==> config_places(Some(xdg), Some(home), Some(platform))
            == config_places(None, Some(home), Some(platform)),
        config_places(None, Some(home), Some(platform)) == seq![
            path_in(home, ".config/shipgate/config.toml"@),
            path_in(platform, "config.toml"@),
        ],
        config_places(None, None, Some(platform)) == seq![path_in(platform, "config.toml"@)],
        config_places(None, Some(home), None) == seq![
            path_in(home, ".config/shipgate/config.toml"@),
        ],
        config_places(None, None, None).len() == 0,
{
    assert(config_places(None, Some(home), Some(platform)) =~= seq![
        path_in(home, ".config/shipgate/config.toml"@),
        path_in(platform, "config.toml"@),
    ]);
    assert(config_places(None, None, Some(platform)) =~= seq![path_in(platform, "config.toml"@)]);
    assert(config_places(None, Some(home), None) =~= seq![
        path_in(home, ".config/shipgate/config.toml"@),
    ]);
    if trimmed(xdg).len() > 0 {
        assert(config_places(Some(xdg), Some(home), Some(platform)) =~= seq![
            path_in(xdg, "shipgate/config.toml"@),
            path_in(home, ".config/shipgate/config.toml"@),
            path_in(platform, "config.toml"@),
        ]);
    } else {
        assert(config_places(Some(xdg), Some(home), Some(platform)) =~= config_places(
            None,
            Some(home),
            Some(platform),
        ));
    }
}

/// Of what was looked for, the first that is there is taken.
pub proof fn the_first_that_is_there(items: Seq<Seq<char>>, there: Seq<bool>, i: int)
    requires
        items.len() == there.len(),
        0 <= i <= items.len(),
        forall|j: int| 0 <= j < i ==> !#[trigger] there[j],
        i < items.len() ==> there[i],
    ensures
        i < items.len() ==> first_marked(items, there) == Some(items[i]),
        i == items.len() ==> first_marked(items, there) is None,
    decreases i,
{
    if i > 0 {
        assert(!there[0]);
        assert forall|j: int| 0 <= j < i - 1 implies !#[trigger] there.skip(1)[j] by {
            assert(there.skip(1)[j] == there[j + 1]);
        }
        the_first_that_is_there(items.skip(1), there.skip(1), i - 1);
    }
}

/// A base is looked for where it was set, and then among the usual branches, on its remote.
pub proof fn where_a_base_is_looked_for(remote: Seq<char>, base: Seq<char>)
    ensures
        base_places(remote, None) == seq![
            remote + "/"@ + "develop"@,
            remote + "/"@ + "master"@,
            remote + "/"@ + "main"@,
        ],
        base_places(remote, Some(base)) == seq![remote + "/"@ + base] + base_places(remote, None),
{
}

} // verus!
