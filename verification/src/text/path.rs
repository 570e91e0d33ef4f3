//! Paths by their components, and the order of these.

use vstd::prelude::*;
use crate::text::chars::same;
use crate::text::order::{before, before_is_total, before_is_transitive, is_before};
use crate::text::split::{pieces, split, texts, texts_push};

verus! {

/// The parts of a path that count: neither empty nor a dot.
pub open spec fn counted_parts(parts: Seq<Seq<char>>) -> Seq<Seq<char>>
    decreases parts.len(),
{
    if parts.len() == 0 {
        Seq::empty()
    } else if parts.last().len() == 0 || parts.last() == "."@ {
        counted_parts(parts.drop_last())
    } else {
        counted_parts(parts.drop_last()).push(parts.last())
    }
}

/// The components of a path. The root is an empty one, and a dot counts only at the front:
/// paths with the same components are the same path.
pub open spec fn components(path: Seq<char>) -> Seq<Seq<char>> {
    let parts = pieces(path, "/"@);
    if parts.len() > 1 && parts[0].len() == 0 {
        seq![Seq::<char>::empty()] + counted_parts(parts)
    } else if parts[0] == "."@ {
        seq!["."@] + counted_parts(parts)
    } else {
        counted_parts(parts)
    }
}

/// Where a component stands among others: the root first, then a dot, then two, then names.
pub open spec fn rank(c: Seq<char>) -> int {
    if c.len() == 0 {
        0
    } else if c == "."@ {
        1
    } else if c == ".."@ {
        2
    } else {
        3
    }
}

/// Whether a component comes before another.
pub open spec fn component_before(a: Seq<char>, b: Seq<char>) -> bool {
    rank(a) < rank(b) || (rank(a) == rank(b) && before(a, b))
}

/// Whether a path comes before another: by their components, the first difference deciding.
pub open spec fn path_before(a: Seq<Seq<char>>, b: Seq<Seq<char>>) -> bool
    decreases b.len(),
{
    if b.len() == 0 {
        false
    } else if a.len() == 0 {
        true
    } else if a[0] == b[0] {
        path_before(a.skip(1), b.skip(1))
    } else {
        component_before(a[0], b[0])
    }
}

/// Of two paths one comes before the other, unless they are the same; and no path comes
/// before itself.
pub proof fn path_before_is_total(a: Seq<Seq<char>>, b: Seq<Seq<char>>)
    ensures
        path_before(a, b) || path_before(b, a) || a == b,
        !(path_before(a, b) && path_before(b, a)),
        a == b ==> !path_before(a, b),
    decreases a.len() + b.len(),
{
    if a.len() > 0 && b.len() > 0 {
        before_is_total(a[0], b[0]);
        if a[0] == b[0] {
            path_before_is_total(a.skip(1), b.skip(1));
            if a.skip(1) == b.skip(1) {
                assert(a =~= seq![a[0]] + a.skip(1));
                assert(b =~= seq![b[0]] + b.skip(1));
            }
        }
    } else if a.len() == 0 && b.len() == 0 {
        assert(a =~= b);
    }
}

/// What comes before a path that comes before another comes before that.
pub proof fn path_before_is_transitive(a: Seq<Seq<char>>, b: Seq<Seq<char>>, c: Seq<Seq<char>>)
    requires
        path_before(a, b),
        path_before(b, c),
    ensures
        path_before(a, c),
    decreases c.len(),
{
    if a.len() > 0 {
        if a[0] == b[0] && b[0] == c[0] {
            path_before_is_transitive(a.skip(1), b.skip(1), c.skip(1));
        } else if a[0] != b[0] && b[0] != c[0] {
            if before(a[0], b[0]) && before(b[0], c[0]) {
                before_is_transitive(a[0], b[0], c[0]);
            }
            before_is_total(a[0], b[0]);
            before_is_total(a[0], c[0]);
            before_is_total(b[0], c[0]);
        }
    }
}

/// The components of a path.
pub fn split_path(path: &str) -> (r: Vec<String>)
    ensures
        texts(r@) == components(path@),
{
    broadcast use texts_push;

    let parts = split(path, "/");
    let ghost ps = texts(parts@);
    proof {
        crate::git::pieces_not_empty(path@, "/"@);
        assert(ps.len() == parts@.len());
        assert(ps[0] == parts@[0]@);
    }
    let mut out: Vec<String> = Vec::new();
    if parts.len() > 1 && parts[0].as_str().is_empty() {
        out.push(String::new());
    } else if same(parts[0].as_str(), ".") {
        out.push(".".to_owned());
    }
    let ghost front = texts(out@);
    let mut i: usize = 0;
    proof {
        assert(ps.take(0) =~= Seq::empty());
        assert(front + counted_parts(ps.take(0)) =~= front);
        if parts@.len() > 1 && ps[0].len() == 0 {
            assert(front =~= seq![Seq::<char>::empty()]);
        } else if ps[0] == "."@ {
            assert(front =~= seq!["."@]);
        } else {
            assert(front =~= Seq::empty());
        }
    }
    while i < parts.len()
        invariant
            i <= parts@.len(),
            ps == texts(parts@),
            texts(out@) == front + counted_parts(ps.take(i as int)),
        decreases parts@.len() - i,
    {
        let part = parts[i].as_str();
        proof {
            assert(ps.take(i + 1).drop_last() =~= ps.take(i as int));
            assert(ps.take(i + 1).last() == part@);
        }
        if !part.is_empty() && !same(part, ".") {
            let ghost done = counted_parts(ps.take(i as int));
            assert((front + done).push(part@) =~= front + done.push(part@));
            out.push(parts[i].clone());
        }
        i += 1;
    }
    proof {
        assert(ps.take(i as int) =~= ps);
        assert(front + counted_parts(ps) =~= components(path@));
    }
    out
}

fn rank_of(c: &str) -> (r: u8)
    ensures
        r == rank(c@),
{
    if c.is_empty() {
        0
    } else if same(c, ".") {
        1
    } else if same(c, "..") {
        2
    } else {
        3
    }
}

fn comes_first(a: &str, b: &str) -> (r: bool)
    ensures
        r == component_before(a@, b@),
{
    let x: u8 = rank_of(a);
    let y: u8 = rank_of(b);
    x < y || (x == y && is_before(a, b))
}

/// Whether a path comes before another.
pub fn is_path_before(a: &[String], b: &[String]) -> (r: bool)
    ensures
        r == path_before(texts(a@), texts(b@)),
{
    let ghost x = texts(a@);
    let ghost y = texts(b@);
    let mut i: usize = 0;
    proof {
        assert(x.skip(0) =~= x);
        assert(y.skip(0) =~= y);
    }
    while i < b.len()
        invariant
            i <= a@.len(),
            i <= b@.len(),
            x == texts(a@),
            y == texts(b@),
            path_before(x, y) == path_before(x.skip(i as int), y.skip(i as int)),
        decreases b@.len() - i,
    {
        if i >= a.len() {
            return true;
        }
        proof {
            assert(x.skip(i as int)[0] == a@[i as int]@);
            assert(y.skip(i as int)[0] == b@[i as int]@);
            assert(x.skip(i as int).skip(1) =~= x.skip(i + 1));
            assert(y.skip(i as int).skip(1) =~= y.skip(i + 1));
        }
        if !same(a[i].as_str(), b[i].as_str()) {
            return comes_first(a[i].as_str(), b[i].as_str());
        }
        i += 1;
    }
    false
}

} // verus!
