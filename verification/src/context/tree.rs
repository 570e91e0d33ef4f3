//! The files of a work tree, as far as they were looked at.

use vstd::prelude::*;
use crate::text::chars::same;
use crate::text::split::{pieces, split, texts};
use crate::text::chars::{substring, to_chars};

verus! {

/// A path that exists, with the text of the file there where it could be read.
pub struct Entry {
    pub path: String,
    pub text: Option<String>,
}

/// The paths that were looked at and exist.
pub struct Tree {
    pub entries: Vec<Entry>,
}

/// The first entry for `path`.
pub open spec fn entry_at(entries: Seq<Entry>, path: Seq<char>) -> Option<Entry>
    decreases entries.len(),
{
    if entries.len() == 0 {
        None
    } else if entries[0].path@ == path {
        Some(entries[0])
    } else {
        entry_at(entries.skip(1), path)
    }
}

impl Tree {
    /// Whether there is something at `path`.
    pub open spec fn has_path(self, path: Seq<char>) -> bool {
        entry_at(self.entries@, path) is Some
    }

    /// The text of the file at `path`, where there is one that can be read.
    pub open spec fn text_at(self, path: Seq<char>) -> Option<Seq<char>> {
        match entry_at(self.entries@, path) {
            Some(e) => match e.text {
                Some(text) => Some(text@),
                None => None,
            },
            None => None,
        }
    }

    /// Whether there is something at `path`.
    pub fn present(&self, path: &str) -> (r: bool)
        ensures
            r == self.has_path(path@),
    {
        self.find(path).is_some()
    }

    /// The text of the file at `path`, where there is one that can be read.
    pub fn read(&self, path: &str) -> (r: Option<String>)
        ensures
            match r {
                Some(text) => self.text_at(path@) == Some(text@),
                None => self.text_at(path@) is None,
            },
    {
        match self.find(path) {
            Some(i) => match &self.entries[i].text {
                Some(text) => Some(text.clone()),
                None => None,
            },
            None => None,
        }
    }

    fn find(&self, path: &str) -> (r: Option<usize>)
        ensures
            match r {
                Some(i) => i < self.entries@.len() && entry_at(self.entries@, path@) == Some(
                    self.entries@[i as int],
                ),
                None => entry_at(self.entries@, path@) is None,
            },
    {
        let mut i: usize = 0;
        proof {
            assert(self.entries@.skip(0) =~= self.entries@);
        }
        while i < self.entries.len()
            invariant
                i <= self.entries@.len(),
                entry_at(self.entries@, path@) == entry_at(self.entries@.skip(i as int), path@),
            decreases self.entries@.len() - i,
        {
            proof {
                assert(self.entries@.skip(i as int).skip(1) =~= self.entries@.skip(i + 1));
            }
            if same(self.entries[i].path.as_str(), path) {
                return Some(i);
            }
            i += 1;
        }
        None
    }
}

/// The last component of a path that names something: neither empty nor `.`.
pub open spec fn last_component(parts: Seq<Seq<char>>) -> Option<Seq<char>>
    decreases parts.len(),
{
    if parts.len() == 0 {
        None
    } else if parts.last() == ""@ || parts.last() == "."@ {
        last_component(parts.drop_last())
    } else {
        Some(parts.last())
    }
}

/// The position behind the last dot in `name`, or zero where it has none.
pub open spec fn behind_last_dot(name: Seq<char>) -> int
    decreases name.len(),
{
    if name.len() == 0 {
        0
    } else if name.last() == '.' {
        name.len() as int
    } else {
        behind_last_dot(name.drop_last())
    }
}

/// The extension of the file at `path`: what follows the last dot of its name, and
/// nothing where the name has no dot, or only one that it starts with.
pub open spec fn extension_of(path: Seq<char>) -> Seq<char> {
    match last_component(pieces(path, "/"@)) {
        Some(name) => {
            let n = behind_last_dot(name);
            if name == ".."@ || n <= 1 {
                Seq::empty()
            } else {
                name.skip(n)
            }
        },
        None => Seq::empty(),
    }
}

/// The extension of the file at `path`, without its dot; empty where it has none.
pub fn extension(path: &str) -> (r: String)
    ensures
        r@ == extension_of(path@),
{
    let parts = split(path, "/");
    let ghost ps = texts(parts@);
    let mut n: usize = parts.len();
    proof {
        assert(ps.take(n as int) =~= ps);
        reveal_strlit("");
        assert(""@ =~= Seq::empty());
    }
    while n > 0 && (parts[n - 1].as_str().is_empty() || same(parts[n - 1].as_str(), "."))
        invariant
            n <= parts@.len(),
            ps == texts(parts@),
            ""@ == Seq::<char>::empty(),
            last_component(ps) == last_component(ps.take(n as int)),
        decreases n,
    {
        proof {
            assert(ps[n - 1] == parts@[n - 1]@);
            assert(ps.take(n as int).drop_last() =~= ps.take(n - 1));
            if parts@[n - 1]@.len() == 0 {
                assert(parts@[n - 1]@ =~= Seq::<char>::empty());
            }
        }
        n -= 1;
    }
    if n == 0 {
        return String::new();
    }
    let name = parts[n - 1].as_str();
    assert(ps[n - 1] == name@);
    assert(last_component(ps) == Some(name@));
    if same(name, "..") {
        return String::new();
    }
    let cs = to_chars(name);
    let mut m: usize = cs.len();
    proof {
        assert(cs@.take(m as int) =~= cs@);
    }
    while m > 0 && cs[m - 1] != '.'
        invariant
            m <= cs@.len(),
            behind_last_dot(cs@) == behind_last_dot(cs@.take(m as int)),
        decreases m,
    {
        proof {
            assert(cs@.take(m as int).drop_last() =~= cs@.take(m - 1));
        }
        m -= 1;
    }
    if m <= 1 {
        return String::new();
    }
    let ext = substring(&cs, m, cs.len());
    proof {
        assert(ext@ =~= name@.skip(m as int));
    }
    ext
}

} // verus!
