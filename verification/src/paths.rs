//! Paths as text: components between slashes, the file name, the extension.

use crate::text::{
    chars_of, is_piece, join_from, joined, lemma_pieces_of_joined, pieces, split, str_eq, views,
    Separator,
};
use vstd::prelude::*;
use vstd::string::*;

verus! {

/// The components of a path: its maximal runs of characters other than `/`.
pub open spec fn parts(p: Seq<char>) -> Seq<Seq<char>> {
    pieces(p, Separator::Slash)
}

/// The component that stands for the directory itself.
pub open spec fn dot() -> Seq<char> {
    seq!['.']
}

/// The component that stands for the parent directory.
pub open spec fn dot_dot() -> Seq<char> {
    seq!['.', '.']
}

/// The last of the components that is not `.`, unless it is `..` or there
/// is none.
pub open spec fn last_name(ps: Seq<Seq<char>>) -> Option<Seq<char>>
    decreases ps.len(),
{
    if ps.len() == 0 {
        None
    } else if ps.last() == dot() {
        last_name(ps.drop_last())
    } else if ps.last() == dot_dot() {
        None
    } else {
        Some(ps.last())
    }
}

/// The file name of a path: its final component, where components that are
/// `.` do not count. A path that ends in `..`, or has no component, has none.
pub open spec fn file_name_spec(p: Seq<char>) -> Option<Seq<char>> {
    last_name(parts(p))
}

/// The position of the last `.` in `f`, or -1 where it has none.
pub open spec fn last_dot(f: Seq<char>) -> int
    decreases f.len(),
{
    if f.len() == 0 {
        -1
    } else if f.last() == '.' {
        f.len() - 1
    } else {
        last_dot(f.drop_last())
    }
}

/// The extension of a file name: what follows its last `.`, unless the name
/// has no `.` or its only `.` is its first character.
pub open spec fn extension_of_name(f: Seq<char>) -> Option<Seq<char>> {
    if last_dot(f) <= 0 {
        None
    } else {
        Some(f.skip(last_dot(f) + 1))
    }
}

/// The extension of a path: that of its file name.
pub open spec fn extension_spec(p: Seq<char>) -> Option<Seq<char>> {
    match file_name_spec(p) {
        Some(f) => extension_of_name(f),
        None => None,
    }
}

/// The text that an optional string stands for.
pub open spec fn opt_view(o: Option<String>) -> Option<Seq<char>> {
    match o {
        Some(s) => Some(s@),
        None => None,
    }
}

/// Whether `s` is the one character `c`.
fn is_single(s: &str, c: char) -> (r: bool)
    ensures
        r == (s@ == seq![c]),
{
    if s.unicode_len() != 1 {
        false
    } else {
        let found = s.get_char(0) == c;
        assert(found ==> s@ =~= seq![c]);
        found
    }
}

/// Whether `s` is `..`.
fn is_dot_dot(s: &str) -> (r: bool)
    ensures
        r == (s@ == dot_dot()),
{
    if s.unicode_len() != 2 {
        false
    } else {
        let found = s.get_char(0) == '.' && s.get_char(1) == '.';
        assert(found ==> s@ =~= dot_dot());
        found
    }
}

/// The file name of `path`, as `file_name_spec` defines it.
pub fn file_name(path: &str) -> (r: Option<String>)
    ensures
        opt_view(r) == file_name_spec(path@),
{
    let ps = split(path, Separator::Slash);
    let mut i: usize = ps.len();
    assert(views(ps@).take(i as int) =~= views(ps@));
    while i > 0
        invariant
            i <= ps.len(),
            views(ps@) == parts(path@),
            last_name(parts(path@)) == last_name(views(ps@).take(i as int)),
        decreases i,
    {
        let p = &ps[i - 1];
        let ghost cur = views(ps@).take(i as int);
        assert(cur.last() == p@);
        assert(cur.drop_last() =~= views(ps@).take(i - 1));
        if is_single(p.as_str(), '.') {
            i -= 1;
        } else if is_dot_dot(p.as_str()) {
            return None;
        } else {
            return Some(p.clone());
        }
    }
    None
}

/// The extension of the file name `name`, as `extension_of_name` defines it.
pub fn extension_of(name: &str) -> (r: Option<String>)
    ensures
        opt_view(r) == extension_of_name(name@),
{
    let chars = chars_of(name);
    let n = chars.len();
    let mut i: usize = n;
    assert(name@.take(i as int) =~= name@);
    while i > 0
        invariant
            i <= n,
            n == chars.len(),
            chars@ == name@,
            last_dot(name@) == last_dot(name@.take(i as int)),
        decreases i,
    {
        let ghost cur = name@.take(i as int);
        assert(cur.last() == chars[i - 1]);
        assert(cur.drop_last() =~= name@.take(i - 1));
        if chars[i - 1] == '.' {
            if i - 1 == 0 {
                return None;
            }
            let ext = String::from_str(name.substring_char(i, n));
            assert(name@.subrange(i as int, n as int) =~= name@.skip(i as int));
            return Some(ext);
        }
        i -= 1;
    }
    None
}

/// The extension of `path`, as `extension_spec` defines it.
pub fn extension(path: &str) -> (r: Option<String>)
    ensures
        opt_view(r) == extension_spec(path@),
{
    match file_name(path) {
        Some(name) => extension_of(name.as_str()),
        None => None,
    }
}

/// The components `ps` written as a path: with one slash between each two.
pub open spec fn join(ps: Seq<Seq<char>>) -> Seq<char> {
    joined(ps, Separator::Slash)
}

/// Whether a path starts at the root of the file system.
pub open spec fn is_absolute(p: Seq<char>) -> bool {
    p.len() > 0 && p[0] == '/'
}

/// The path `path` as seen from `root`: the components of `path` that
/// follow those of `root`. There is none where the components of `root` are
/// not the first of `path`, or where only one of the two is absolute.
pub open spec fn relative_to(path: Seq<char>, root: Seq<char>) -> Option<Seq<char>> {
    if is_absolute(path) == is_absolute(root) && parts(root).is_prefix_of(parts(path)) {
        Some(join(parts(path).skip(parts(root).len() as int)))
    } else {
        None
    }
}

/// Components that are written as a path are the components of that path.
pub proof fn lemma_parts_of_join(ps: Seq<Seq<char>>)
    requires
        forall|i: int| 0 <= i < ps.len() ==> is_piece(#[trigger] ps[i], Separator::Slash),
    ensures
        parts(join(ps)) == ps,
        !is_absolute(join(ps)),
{
    lemma_pieces_of_joined(ps, Separator::Slash);
}

/// A path as seen from a root has the components that follow the root's,
/// and reads the same when its components are written as a path again.
pub proof fn lemma_relative_parts(path: Seq<char>, root: Seq<char>)
    requires
        relative_to(path, root) is Some,
    ensures
        parts(relative_to(path, root)->Some_0) == parts(path).skip(parts(root).len() as int),
        join(parts(relative_to(path, root)->Some_0)) == relative_to(path, root)->Some_0,
{
    let rest = parts(path).skip(parts(root).len() as int);
    crate::text::lemma_pieces_are_pieces(path, Separator::Slash);
    assert forall|i: int| 0 <= i < rest.len() implies is_piece(#[trigger] rest[i], Separator::Slash) by {
        assert(rest[i] == parts(path)[i + parts(root).len()]);
    }
    lemma_parts_of_join(rest);
}

/// Whether `path` starts at the root of the file system.
fn starts_at_root(path: &str) -> (r: bool)
    ensures
        r == is_absolute(path@),
{
    path.unicode_len() > 0 && path.get_char(0) == '/'
}

/// The path `path` as seen from `root`, as `relative_to` defines it.
pub fn strip_root(path: &str, root: &str) -> (r: Option<String>)
    ensures
        opt_view(r) == relative_to(path@, root@),
{
    if starts_at_root(path) != starts_at_root(root) {
        return None;
    }
    let pp = split(path, Separator::Slash);
    let rp = split(root, Separator::Slash);
    if rp.len() > pp.len() {
        return None;
    }
    let mut i: usize = 0;
    while i < rp.len()
        invariant
            i <= rp.len() <= pp.len(),
            views(pp@) == parts(path@),
            views(rp@) == parts(root@),
            forall|k: int| 0 <= k < i ==> parts(root@)[k] == parts(path@)[k],
        decreases rp.len() - i,
    {
        assert(parts(root@)[i as int] == rp[i as int]@);
        assert(parts(path@)[i as int] == pp[i as int]@);
        if !str_eq(rp[i].as_str(), pp[i].as_str()) {
            assert(parts(path@).subrange(0, parts(root@).len() as int)[i as int] != parts(
                root@,
            )[i as int]);
            return None;
        }
        i += 1;
    }
    assert(parts(path@).subrange(0, parts(root@).len() as int) =~= parts(root@));
    Some(join_from(&pp, rp.len(), Separator::Slash))
}

} // verus!
