//! Paths as texts.
use crate::text::{chars_of, chars_strip_prefix, owned, starts_with, str_eq};
use vstd::prelude::*;

verus! {

broadcast use vstd::seq::group_seq_axioms;

/// A name under a directory.
pub open spec fn joined(dir: Seq<char>, name: Seq<char>) -> Seq<char> {
    if dir.len() == 0 || dir.last() == '/' {
        dir + name
    } else {
        dir + seq!['/'] + name
    }
}

/// The path of `name` under `dir`.
pub fn join(dir: &str, name: &str) -> (r: String)
    ensures
        r@ == joined(dir@, name@),
{
    let c = chars_of(dir);
    let mut s = owned(dir);
    if c.len() > 0 && c[c.len() - 1] != '/' {
        s.push('/');
    }
    s.push_str(name);
    proof {
        assert(s@ =~= joined(dir@, name@));
    }
    s
}

/// Whether a canonical path is a directory or lies below it.
pub open spec fn lies_under(path: Seq<char>, dir: Seq<char>) -> bool {
    path == dir || starts_with(path, joined(dir, Seq::empty()))
}

/// Whether the canonical `path` is the canonical `dir` or lies below it.
pub fn is_under(path: &str, dir: &str) -> (r: bool)
    ensures
        r == lies_under(path@, dir@),
{
    if str_eq(path, dir) {
        return true;
    }
    let prefix = join(dir, "");
    proof {
        reveal_strlit("");
        assert(""@ =~= Seq::<char>::empty());
    }
    let c = chars_of(path);
    chars_strip_prefix(c.as_slice(), prefix.as_str()).is_some()
}

/// A name is put below a directory behind exactly one slash more than there was, or
/// none if the directory ends in one.
pub proof fn law_joining(dir: Seq<char>, name: Seq<char>)
    requires
        dir.len() > 0,
        dir.last() != '/',
    ensures
        joined(dir, name) == dir + seq!['/'] + name,
        joined(dir + seq!['/'], name) == dir + seq!['/'] + name,
        joined(Seq::empty(), name) == name,
{
    assert(Seq::<char>::empty() + name =~= name);
    assert((dir + seq!['/']).last() == '/');
}

/// A path lies under a directory if it is the directory, or goes on behind it with a
/// slash; a longer name that begins alike does not.
pub proof fn law_lying_under(dir: Seq<char>, below: Seq<char>, c: char)
    requires
        dir.len() > 0,
        dir.last() != '/',
        c != '/',
    ensures
        lies_under(dir, dir),
        lies_under(dir + seq!['/'] + below, dir),
        !lies_under(dir + seq![c] + below, dir),
{
    let e = Seq::<char>::empty();
    let p = joined(dir, e);
    assert(p =~= dir + seq!['/']);
    let inside = dir + seq!['/'] + below;
    assert(inside.take(p.len() as int) =~= p);
    let beside = dir + seq![c] + below;
    assert(beside.take(p.len() as int)[dir.len() as int] == c);
    assert(p[dir.len() as int] == '/');
    assert(beside.len() > dir.len());
}

} // verus!
