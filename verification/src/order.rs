//! The order of paths: component by component, each component character
//! by character.

use crate::paths::parts;
use crate::text::{chars_of, split, views, Separator};
use vstd::prelude::*;
use vstd::relations::{
    antisymmetric, reflexive, strongly_connected, total_ordering, transitive,
};

verus! {

/// The lexicographic order on sequences that the order `le` on their members
/// gives: at the first position where two sequences differ the members
/// decide, and a sequence comes before those that it is the beginning of.
pub open spec fn lex_le<T>(a: Seq<T>, b: Seq<T>, le: spec_fn(T, T) -> bool) -> bool
    decreases a.len(),
{
    if a.len() == 0 {
        true
    } else if b.len() == 0 {
        false
    } else if a[0] == b[0] {
        lex_le(a.drop_first(), b.drop_first(), le)
    } else {
        le(a[0], b[0])
    }
}

/// The order of characters by their code.
pub open spec fn char_le() -> spec_fn(char, char) -> bool {
    |x: char, y: char| x as u32 <= y as u32
}

/// The order of texts: lexicographic by the codes of their characters.
pub open spec fn text_le(a: Seq<char>, b: Seq<char>) -> bool {
    lex_le(a, b, char_le())
}

/// The order of texts, as a relation.
pub open spec fn text_le_fn() -> spec_fn(Seq<char>, Seq<char>) -> bool {
    |a: Seq<char>, b: Seq<char>| text_le(a, b)
}

/// The order of sequences of components: lexicographic by the order of texts.
pub open spec fn parts_le(a: Seq<Seq<char>>, b: Seq<Seq<char>>) -> bool {
    lex_le(a, b, text_le_fn())
}

/// The order of sequences of components, as a relation.
pub open spec fn parts_le_fn() -> spec_fn(Seq<Seq<char>>, Seq<Seq<char>>) -> bool {
    |a: Seq<Seq<char>>, b: Seq<Seq<char>>| parts_le(a, b)
}

/// The order of paths: that of their components.
pub open spec fn path_le(a: Seq<char>, b: Seq<char>) -> bool {
    parts_le(parts(a), parts(b))
}

/// The order of paths, as a relation.
pub open spec fn path_le_fn() -> spec_fn(Seq<char>, Seq<char>) -> bool {
    |a: Seq<char>, b: Seq<char>| path_le(a, b)
}

/// Every sequence comes before or at itself.
pub proof fn lemma_lex_reflexive<T>(a: Seq<T>, le: spec_fn(T, T) -> bool)
    ensures
        lex_le(a, a, le),
    decreases a.len(),
{
    if a.len() > 0 {
        lemma_lex_reflexive(a.drop_first(), le);
    }
}

/// Of two sequences one comes before or at the other.
pub proof fn lemma_lex_total<T>(a: Seq<T>, b: Seq<T>, le: spec_fn(T, T) -> bool)
    requires
        strongly_connected(le),
    ensures
        lex_le(a, b, le) || lex_le(b, a, le),
    decreases a.len(),
{
    if a.len() > 0 && b.len() > 0 {
        if a[0] == b[0] {
            lemma_lex_total(a.drop_first(), b.drop_first(), le);
        } else {
            assert(le(a[0], b[0]) || le(b[0], a[0]));
        }
    }
}

/// Two sequences that come before or at each other are equal.
pub proof fn lemma_lex_antisymmetric<T>(a: Seq<T>, b: Seq<T>, le: spec_fn(T, T) -> bool)
    requires
        antisymmetric(le),
        lex_le(a, b, le),
        lex_le(b, a, le),
    ensures
        a == b,
    decreases a.len(),
{
    if a.len() == 0 || b.len() == 0 {
        assert(a =~= b);
    } else if a[0] == b[0] {
        lemma_lex_antisymmetric(a.drop_first(), b.drop_first(), le);
        assert(a =~= seq![a[0]] + a.drop_first());
        assert(b =~= seq![b[0]] + b.drop_first());
    } else {
        assert(le(a[0], b[0]) && le(b[0], a[0]));
    }
}

/// The lexicographic order passes from a first to a third sequence through a
/// second.
pub proof fn lemma_lex_transitive<T>(a: Seq<T>, b: Seq<T>, c: Seq<T>, le: spec_fn(T, T) -> bool)
    requires
        antisymmetric(le),
        transitive(le),
        lex_le(a, b, le),
        lex_le(b, c, le),
    ensures
        lex_le(a, c, le),
    decreases a.len(),
{
    if a.len() > 0 {
        if a[0] == b[0] && b[0] == c[0] {
            lemma_lex_transitive(a.drop_first(), b.drop_first(), c.drop_first(), le);
        } else if a[0] == b[0] {
            assert(le(b[0], c[0]));
        } else if b[0] == c[0] {
            assert(le(a[0], b[0]));
        } else {
            assert(le(a[0], b[0]) && le(b[0], c[0]));
            if a[0] == c[0] {
                assert(le(c[0], b[0]));
            }
        }
    }
}

/// The lexicographic order that a total order gives is a total order.
pub proof fn lemma_lex_total_ordering<T>(le: spec_fn(T, T) -> bool)
    requires
        total_ordering(le),
    ensures
        total_ordering(|a: Seq<T>, b: Seq<T>| lex_le(a, b, le)),
{
    let r = |a: Seq<T>, b: Seq<T>| lex_le(a, b, le);
    assert forall|a: Seq<T>| #[trigger] r(a, a) by {
        lemma_lex_reflexive(a, le);
    }
    assert forall|a: Seq<T>, b: Seq<T>| #[trigger] r(a, b) && #[trigger] r(b, a) implies a == b by {
        lemma_lex_antisymmetric(a, b, le);
    }
    assert forall|a: Seq<T>, b: Seq<T>, c: Seq<T>| #[trigger] r(a, b) && #[trigger] r(b, c) implies r(
        a,
        c,
    ) by {
        lemma_lex_transitive(a, b, c, le);
    }
    assert forall|a: Seq<T>, b: Seq<T>| #[trigger] r(a, b) || #[trigger] r(b, a) by {
        lemma_lex_total(a, b, le);
    }
}

/// The order of characters is a total order.
pub proof fn lemma_char_le_total_ordering()
    ensures
        total_ordering(char_le()),
{
    let r = char_le();
    assert forall|x: char, y: char| #[trigger] r(x, y) && #[trigger] r(y, x) implies x == y by {
        let u = x as u32;
        assert(u == y as u32);
        vstd::utf8::char_u32_cast(x, u);
        vstd::utf8::char_u32_cast(y, u);
    }
}

/// The order of texts is a total order.
pub proof fn lemma_text_le_total_ordering()
    ensures
        total_ordering(text_le_fn()),
{
    lemma_char_le_total_ordering();
    lemma_lex_total_ordering(char_le());
    let r = |a: Seq<char>, b: Seq<char>| lex_le(a, b, char_le());
    assert(forall|a: Seq<char>, b: Seq<char>| #[trigger] r(a, b) == text_le_fn()(a, b));
    assert(r =~= text_le_fn());
}

/// The order of sequences of components is a total order.
pub proof fn lemma_parts_le_total_ordering()
    ensures
        total_ordering(parts_le_fn()),
{
    lemma_text_le_total_ordering();
    lemma_lex_total_ordering(text_le_fn());
    let r = |a: Seq<Seq<char>>, b: Seq<Seq<char>>| lex_le(a, b, text_le_fn());
    assert(forall|a: Seq<Seq<char>>, b: Seq<Seq<char>>| #[trigger] r(a, b) == parts_le_fn()(a, b));
    assert(r =~= parts_le_fn());
}

/// The order of paths puts every two paths in order, and passes from a first
/// to a third path through a second.
pub proof fn lemma_path_le_total_preorder()
    ensures
        reflexive(path_le_fn()),
        transitive(path_le_fn()),
        strongly_connected(path_le_fn()),
{
    lemma_parts_le_total_ordering();
    let p = parts_le_fn();
    let r = path_le_fn();
    assert forall|a: Seq<char>| #[trigger] r(a, a) by {
        assert(p(parts(a), parts(a)));
    }
    assert forall|a: Seq<char>, b: Seq<char>, c: Seq<char>| #[trigger] r(a, b) && #[trigger] r(
        b,
        c,
    ) implies r(a, c) by {
        assert(p(parts(a), parts(b)) && p(parts(b), parts(c)));
        assert(p(parts(a), parts(c)));
    }
    assert forall|a: Seq<char>, b: Seq<char>| #[trigger] r(a, b) || #[trigger] r(b, a) by {
        assert(p(parts(a), parts(b)) || p(parts(b), parts(a)));
    }
}

/// Two sequences that agree in their first `i` members are ordered as what
/// follows those members is.
pub proof fn lemma_lex_skip_common<T>(a: Seq<T>, b: Seq<T>, i: int, le: spec_fn(T, T) -> bool)
    requires
        0 <= i <= a.len(),
        i <= b.len(),
        forall|k: int| 0 <= k < i ==> a[k] == b[k],
    ensures
        lex_le(a, b, le) == lex_le(a.skip(i), b.skip(i), le),
    decreases i,
{
    if i == 0 {
        assert(a.skip(0) =~= a);
        assert(b.skip(0) =~= b);
    } else {
        let x = a.drop_first();
        let y = b.drop_first();
        assert(a[0] == b[0]);
        assert forall|k: int| 0 <= k < i - 1 implies x[k] == y[k] by {
            assert(a[k + 1] == b[k + 1]);
        }
        lemma_lex_skip_common(x, y, i - 1, le);
        assert(x.skip(i - 1) =~= a.skip(i));
        assert(y.skip(i - 1) =~= b.skip(i));
    }
}

/// Whether `a` comes before or at `b` in the order of texts.
pub fn texts_le(a: &Vec<char>, b: &Vec<char>) -> (r: bool)
    ensures
        r == text_le(a@, b@),
{
    let mut i: usize = 0;
    while i < a.len() && i < b.len()
        invariant
            i <= a.len(),
            i <= b.len(),
            forall|k: int| 0 <= k < i ==> a[k] == b[k],
        decreases a.len() - i,
    {
        if a[i] != b[i] {
            proof {
                lemma_lex_skip_common(a@, b@, i as int, char_le());
                assert(a@.skip(i as int)[0] == a[i as int]);
                assert(b@.skip(i as int)[0] == b[i as int]);
            }
            let x: u32 = a[i] as u32;
            let y: u32 = b[i] as u32;
            return x <= y;
        }
        i += 1;
    }
    proof {
        lemma_lex_skip_common(a@, b@, i as int, char_le());
        if i < a.len() {
            assert(b@.skip(i as int).len() == 0);
        }
    }
    i >= a.len()
}

/// Whether `a` and `b` are the same text.
pub fn texts_eq(a: &Vec<char>, b: &Vec<char>) -> (r: bool)
    ensures
        r == (a@ == b@),
{
    if a.len() != b.len() {
        return false;
    }
    let mut i: usize = 0;
    while i < a.len()
        invariant
            i <= a.len(),
            a.len() == b.len(),
            forall|k: int| 0 <= k < i ==> a[k] == b[k],
        decreases a.len() - i,
    {
        if a[i] != b[i] {
            return false;
        }
        i += 1;
    }
    assert(a@ =~= b@);
    true
}

/// The texts that a vector of character vectors stands for.
pub open spec fn key_views(v: Seq<Vec<char>>) -> Seq<Seq<char>> {
    Seq::new(v.len(), |i: int| v[i]@)
}

/// The components of `path`, each as a vector of characters.
pub fn path_key(path: &str) -> (key: Vec<Vec<char>>)
    ensures
        key_views(key@) == parts(path@),
{
    let ps = split(path, Separator::Slash);
    let mut key: Vec<Vec<char>> = Vec::new();
    let mut i: usize = 0;
    while i < ps.len()
        invariant
            i <= ps.len(),
            key.len() == i,
            forall|k: int| 0 <= k < i ==> (#[trigger] key[k])@ == ps[k]@,
        decreases ps.len() - i,
    {
        key.push(chars_of(ps[i].as_str()));
        i += 1;
    }
    assert(key_views(key@) =~= views(ps@));
    key
}

/// Whether the components `a` come before or at the components `b`.
pub fn keys_le(a: &Vec<Vec<char>>, b: &Vec<Vec<char>>) -> (r: bool)
    ensures
        r == parts_le(key_views(a@), key_views(b@)),
{
    let ghost x = key_views(a@);
    let ghost y = key_views(b@);
    let mut i: usize = 0;
    while i < a.len() && i < b.len()
        invariant
            i <= a.len(),
            i <= b.len(),
            x == key_views(a@),
            y == key_views(b@),
            forall|k: int| 0 <= k < i ==> x[k] == y[k],
        decreases a.len() - i,
    {
        assert(x[i as int] == a[i as int]@);
        assert(y[i as int] == b[i as int]@);
        if !texts_eq(&a[i], &b[i]) {
            proof {
                lemma_lex_skip_common(x, y, i as int, text_le_fn());
                assert(x.skip(i as int)[0] == x[i as int]);
                assert(y.skip(i as int)[0] == y[i as int]);
            }
            return texts_le(&a[i], &b[i]);
        }
        i += 1;
    }
    proof {
        lemma_lex_skip_common(x, y, i as int, text_le_fn());
        if i < a.len() {
            assert(y.skip(i as int).len() == 0);
        }
    }
    i >= a.len()
}

/// Whether the path `a` comes before or at the path `b`.
pub fn paths_le(a: &str, b: &str) -> (r: bool)
    ensures
        r == path_le(a@, b@),
{
    let x = path_key(a);
    let y = path_key(b);
    keys_le(&x, &y)
}

} // verus!
