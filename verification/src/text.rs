//! Splitting of text into pieces at separator characters: words at
//! whitespace, path components at slashes.

use vstd::prelude::*;
use vstd::string::*;

verus! {

/// Whether `c` carries the Unicode property `White_Space`.
pub open spec fn is_space(c: char) -> bool {
    let n = c as u32;
    (0x09 <= n && n <= 0x0D) || n == 0x20 || n == 0x85 || n == 0xA0 || n == 0x1680
        || (0x2000 <= n && n <= 0x200A) || n == 0x2028 || n == 0x2029 || n == 0x202F
        || n == 0x205F || n == 0x3000
}

/// Executable test for `is_space`.
pub fn char_is_space(c: char) -> (r: bool)
    ensures
        r == is_space(c),
{
    let n: u32 = c as u32;
    (0x09 <= n && n <= 0x0D) || n == 0x20 || n == 0x85 || n == 0xA0 || n == 0x1680
        || (0x2000 <= n && n <= 0x200A) || n == 0x2028 || n == 0x2029 || n == 0x202F
        || n == 0x205F || n == 0x3000
}

/// The characters at which text is split.
#[derive(Clone, Copy, Debug)]
pub enum Separator {
    /// Any whitespace character.
    Whitespace,
    /// The slash between the components of a path.
    Slash,
    /// The space character alone.
    Space,
}

impl Separator {
    /// Whether `c` separates pieces.
    pub open spec fn holds(self, c: char) -> bool {
        match self {
            Separator::Whitespace => is_space(c),
            Separator::Slash => c == '/',
            Separator::Space => c == ' ',
        }
    }

    /// The separator that is written between pieces that are joined.
    pub open spec fn mark(self) -> char {
        match self {
            Separator::Whitespace => ' ',
            Separator::Slash => '/',
            Separator::Space => ' ',
        }
    }

    /// The mark, as text.
    pub fn mark_str(self) -> (r: &'static str)
        ensures
            r@ == seq![self.mark()],
    {
        match self {
            Separator::Whitespace | Separator::Space => {
                proof {
                    reveal_strlit(" ");
                }
                assert(" "@ =~= seq![' ']);
                " "
            },
            Separator::Slash => {
                proof {
                    reveal_strlit("/");
                }
                assert("/"@ =~= seq!['/']);
                "/"
            },
        }
    }

    /// Executable test for `holds`.
    pub fn test(self, c: char) -> (r: bool)
        ensures
            r == self.holds(c),
    {
        match self {
            Separator::Whitespace => char_is_space(c),
            Separator::Slash => c == '/',
            Separator::Space => c == ' ',
        }
    }
}

/// A piece: at least one character, none of them a separator.
pub open spec fn is_piece(s: Seq<char>, sep: Separator) -> bool {
    s.len() > 0 && forall|i: int| 0 <= i < s.len() ==> !sep.holds(#[trigger] s[i])
}

/// A text without pieces: each of its characters is a separator.
pub open spec fn is_void(s: Seq<char>, sep: Separator) -> bool {
    forall|i: int| 0 <= i < s.len() ==> sep.holds(#[trigger] s[i])
}

/// Length of the run of non-separator characters that `s` starts with.
pub open spec fn run_len(s: Seq<char>, sep: Separator) -> nat
    decreases s.len(),
{
    if s.len() == 0 || sep.holds(s[0]) {
        0
    } else {
        1 + run_len(s.drop_first(), sep)
    }
}

/// The pieces of `s`, in order: its maximal runs of non-separator characters.
pub open spec fn pieces(s: Seq<char>, sep: Separator) -> Seq<Seq<char>>
    decreases s.len(),
    via pieces_decreases
{
    if s.len() == 0 {
        Seq::empty()
    } else if sep.holds(s[0]) {
        pieces(s.drop_first(), sep)
    } else {
        seq![s.take(run_len(s, sep) as int)] + pieces(s.skip(run_len(s, sep) as int), sep)
    }
}

#[via_fn]
proof fn pieces_decreases(s: Seq<char>, sep: Separator) {
    lemma_run_len_bounds(s, sep);
}

/// A word: at least one character, none of them whitespace.
pub open spec fn is_word(s: Seq<char>) -> bool {
    is_piece(s, Separator::Whitespace)
}

/// A text without words: each of its characters is whitespace.
pub open spec fn is_blank(s: Seq<char>) -> bool {
    is_void(s, Separator::Whitespace)
}

/// The words of `s`, in order: its maximal runs of non-whitespace characters.
pub open spec fn tokens(s: Seq<char>) -> Seq<Seq<char>> {
    pieces(s, Separator::Whitespace)
}

/// `run_len` never exceeds the length, counts only non-separators, and stops
/// at a separator or at the end.
pub proof fn lemma_run_len_bounds(s: Seq<char>, sep: Separator)
    ensures
        run_len(s, sep) <= s.len(),
        s.len() > 0 && !sep.holds(s[0]) ==> run_len(s, sep) >= 1,
        forall|i: int| 0 <= i < run_len(s, sep) ==> !sep.holds(#[trigger] s[i]),
        run_len(s, sep) < s.len() ==> sep.holds(s[run_len(s, sep) as int]),
    decreases s.len(),
{
    if s.len() == 0 || sep.holds(s[0]) {
    } else {
        let t = s.drop_first();
        lemma_run_len_bounds(t, sep);
        assert forall|i: int| 0 <= i < run_len(s, sep) implies !sep.holds(#[trigger] s[i]) by {
            if i > 0 {
                assert(s[i] == t[i - 1]);
            }
        }
        if run_len(s, sep) < s.len() {
            assert(s[run_len(s, sep) as int] == t[run_len(t, sep) as int]);
        }
    }
}

/// A text has no pieces exactly when it is empty or all separators.
pub proof fn lemma_no_pieces_iff_void(s: Seq<char>, sep: Separator)
    ensures
        pieces(s, sep).len() == 0 <==> is_void(s, sep),
    decreases s.len(),
{
    if s.len() == 0 {
    } else if sep.holds(s[0]) {
        let t = s.drop_first();
        lemma_no_pieces_iff_void(t, sep);
        assert(pieces(s, sep) == pieces(t, sep));
        if is_void(t, sep) {
            assert forall|i: int| 0 <= i < s.len() implies sep.holds(#[trigger] s[i]) by {
                if i > 0 {
                    assert(s[i] == t[i - 1]);
                }
            }
        }
        if is_void(s, sep) {
            assert forall|i: int| 0 <= i < t.len() implies sep.holds(#[trigger] t[i]) by {
                assert(t[i] == s[i + 1]);
            }
        }
    } else {
        let n = run_len(s, sep) as int;
        assert(pieces(s, sep) == seq![s.take(n)] + pieces(s.skip(n), sep));
    }
}

/// Every member of `pieces` is a piece.
pub proof fn lemma_pieces_are_pieces(s: Seq<char>, sep: Separator)
    ensures
        forall|k: int| 0 <= k < pieces(s, sep).len() ==> is_piece(#[trigger] pieces(s, sep)[k], sep),
    decreases s.len(),
{
    if s.len() == 0 {
    } else if sep.holds(s[0]) {
        lemma_pieces_are_pieces(s.drop_first(), sep);
        assert(pieces(s, sep) == pieces(s.drop_first(), sep));
    } else {
        lemma_run_len_bounds(s, sep);
        let n = run_len(s, sep) as int;
        lemma_pieces_are_pieces(s.skip(n), sep);
        assert(pieces(s, sep) == seq![s.take(n)] + pieces(s.skip(n), sep));
        let first = s.take(n);
        assert(is_piece(first, sep)) by {
            assert forall|i: int| 0 <= i < first.len() implies !sep.holds(#[trigger] first[i]) by {
                assert(first[i] == s[i]);
            }
        }
        assert forall|k: int| 0 <= k < pieces(s, sep).len() implies is_piece(
            #[trigger] pieces(s, sep)[k],
            sep,
        ) by {
            if k > 0 {
                assert(pieces(s, sep)[k] == pieces(s.skip(n), sep)[k - 1]);
            }
        }
    }
}

/// A run of non-separators followed by a separator is as long as the run.
pub proof fn lemma_run_len_of_piece(w: Seq<char>, c: char, rest: Seq<char>, sep: Separator)
    requires
        sep.holds(c),
        forall|i: int| 0 <= i < w.len() ==> !sep.holds(#[trigger] w[i]),
    ensures
        run_len(w + seq![c] + rest, sep) == w.len(),
    decreases w.len(),
{
    let s = w + seq![c] + rest;
    if w.len() == 0 {
        assert(s[0] == c);
    } else {
        assert(s[0] == w[0]);
        let v = w.drop_first();
        assert(s.drop_first() =~= v + seq![c] + rest);
        assert forall|i: int| 0 <= i < v.len() implies !sep.holds(#[trigger] v[i]) by {
            assert(v[i] == w[i + 1]);
        }
        lemma_run_len_of_piece(v, c, rest, sep);
    }
}

/// A piece followed by a separator is the first piece of the text, and the
/// pieces of what follows are the others.
pub proof fn lemma_pieces_piece_first(w: Seq<char>, c: char, rest: Seq<char>, sep: Separator)
    requires
        sep.holds(c),
        is_piece(w, sep),
    ensures
        pieces(w + seq![c] + rest, sep) == seq![w] + pieces(rest, sep),
{
    let s = w + seq![c] + rest;
    let n = w.len() as int;
    lemma_run_len_of_piece(w, c, rest, sep);
    assert(s[0] == w[0]);
    assert(s.take(n) =~= w);
    let tail = s.skip(n);
    assert(tail =~= seq![c] + rest);
    assert(tail[0] == c);
    assert(tail.drop_first() =~= rest);
    assert(pieces(tail, sep) == pieces(rest, sep));
    assert(pieces(s, sep) == seq![s.take(n)] + pieces(tail, sep));
}

/// A piece alone is its own only piece.
pub proof fn lemma_pieces_of_piece(w: Seq<char>, sep: Separator)
    requires
        is_piece(w, sep),
    ensures
        pieces(w, sep) == seq![w],
        run_len(w, sep) == w.len(),
{
    lemma_run_len_bounds(w, sep);
    let n = run_len(w, sep) as int;
    if n < w.len() {
        assert(sep.holds(w[n]));
    }
    assert(w.take(n) =~= w);
    assert(w.skip(n) =~= Seq::<char>::empty());
    assert(pieces(w.skip(n), sep) =~= Seq::<Seq<char>>::empty());
    assert(pieces(w, sep) == seq![w.take(n)] + pieces(w.skip(n), sep));
}

/// The first run of non-separators is not changed by text that follows the
/// separator behind it.
pub proof fn lemma_run_len_prefix(x: Seq<char>, y: Seq<char>, sep: Separator)
    requires
        run_len(x, sep) < x.len(),
    ensures
        run_len(x + y, sep) == run_len(x, sep),
    decreases x.len(),
{
    if sep.holds(x[0]) {
        assert((x + y)[0] == x[0]);
    } else {
        assert((x + y)[0] == x[0]);
        assert((x + y).drop_first() =~= x.drop_first() + y);
        lemma_run_len_prefix(x.drop_first(), y, sep);
    }
}

/// Where a text is empty or ends in a separator, the pieces of it and of what
/// is appended to it are those of the two, one after the other.
pub proof fn lemma_pieces_concat(x: Seq<char>, y: Seq<char>, sep: Separator)
    requires
        x.len() == 0 || sep.holds(x.last()),
    ensures
        pieces(x + y, sep) == pieces(x, sep) + pieces(y, sep),
    decreases x.len(),
{
    if x.len() == 0 {
        assert(x + y =~= y);
        assert(pieces(x, sep) + pieces(y, sep) =~= pieces(y, sep));
    } else if sep.holds(x[0]) {
        assert((x + y)[0] == x[0]);
        assert((x + y).drop_first() =~= x.drop_first() + y);
        let v = x.drop_first();
        if v.len() > 0 {
            assert(v.last() == x.last());
        }
        lemma_pieces_concat(v, y, sep);
        assert(pieces(x + y, sep) == pieces(v + y, sep));
        assert(pieces(x, sep) == pieces(v, sep));
    } else {
        lemma_run_len_bounds(x, sep);
        let n = run_len(x, sep) as int;
        assert(n < x.len()) by {
            if n == x.len() {
                assert(!sep.holds(x[n - 1]));
            }
        }
        lemma_run_len_prefix(x, y, sep);
        assert((x + y)[0] == x[0]);
        assert((x + y).take(n) =~= x.take(n));
        assert((x + y).skip(n) =~= x.skip(n) + y);
        let v = x.skip(n);
        assert(v.last() == x.last());
        lemma_pieces_concat(v, y, sep);
        assert(pieces(x, sep) == seq![x.take(n)] + pieces(v, sep));
        assert(pieces(x + y, sep) == seq![(x + y).take(n)] + pieces((x + y).skip(n), sep));
        assert(pieces(x + y, sep) =~= pieces(x, sep) + pieces(y, sep));
    }
}

/// A separator at the end of a text adds no piece.
pub proof fn lemma_pieces_trailing_sep(y: Seq<char>, c: char, sep: Separator)
    requires
        sep.holds(c),
    ensures
        pieces(y + seq![c], sep) == pieces(y, sep),
    decreases y.len(),
{
    let s = y + seq![c];
    if y.len() == 0 {
        assert(s[0] == c);
        assert(s.drop_first() =~= y);
        assert(pieces(s, sep) == pieces(s.drop_first(), sep));
    } else if sep.holds(y[0]) {
        assert(s[0] == y[0]);
        assert(s.drop_first() =~= y.drop_first() + seq![c]);
        lemma_pieces_trailing_sep(y.drop_first(), c, sep);
        assert(pieces(s, sep) == pieces(s.drop_first(), sep));
        assert(pieces(y, sep) == pieces(y.drop_first(), sep));
    } else {
        lemma_run_len_bounds(y, sep);
        let n = run_len(y, sep) as int;
        assert(s[0] == y[0]);
        assert(run_len(s, sep) == n) by {
            if n < y.len() {
                lemma_run_len_prefix(y, seq![c], sep);
            } else {
                assert(s =~= y + seq![c] + Seq::<char>::empty());
                lemma_run_len_of_piece(y, c, Seq::empty(), sep);
            }
        }
        assert(s.take(n) =~= y.take(n));
        assert(s.skip(n) =~= y.skip(n) + seq![c]);
        lemma_pieces_trailing_sep(y.skip(n), c, sep);
        assert(pieces(s, sep) == seq![s.take(n)] + pieces(s.skip(n), sep));
        assert(pieces(y, sep) == seq![y.take(n)] + pieces(y.skip(n), sep));
    }
}

/// The pieces `ps` written one after the other, with the separator's mark
/// between each two.
pub open spec fn joined(ps: Seq<Seq<char>>, sep: Separator) -> Seq<char>
    decreases ps.len(),
{
    if ps.len() == 0 {
        Seq::empty()
    } else if ps.len() == 1 {
        ps[0]
    } else {
        joined(ps.drop_last(), sep) + seq![sep.mark()] + ps.last()
    }
}

/// Pieces that are joined are the pieces of the joined text, and that text
/// does not begin with a separator.
pub proof fn lemma_pieces_of_joined(ps: Seq<Seq<char>>, sep: Separator)
    requires
        forall|i: int| 0 <= i < ps.len() ==> is_piece(#[trigger] ps[i], sep),
    ensures
        pieces(joined(ps, sep), sep) == ps,
        joined(ps, sep).len() > 0 ==> !sep.holds(joined(ps, sep)[0]),
        ps.len() > 0 ==> joined(ps, sep).len() > 0,
    decreases ps.len(),
{
    if ps.len() == 0 {
        assert(pieces(joined(ps, sep), sep) =~= ps);
    } else if ps.len() == 1 {
        lemma_pieces_of_piece(ps[0], sep);
        assert(seq![ps[0]] =~= ps);
    } else {
        let init = ps.drop_last();
        assert forall|i: int| 0 <= i < init.len() implies is_piece(#[trigger] init[i], sep) by {
            assert(init[i] == ps[i]);
        }
        lemma_pieces_of_joined(init, sep);
        let head = joined(init, sep) + seq![sep.mark()];
        lemma_pieces_trailing_sep(joined(init, sep), sep.mark(), sep);
        assert(head.last() == sep.mark());
        lemma_pieces_concat(head, ps.last(), sep);
        lemma_pieces_of_piece(ps.last(), sep);
        assert(init + seq![ps.last()] =~= ps);
        assert(joined(ps, sep)[0] == joined(init, sep)[0]);
    }
}

/// The characters of `s`, in order.
pub fn chars_of(s: &str) -> (v: Vec<char>)
    ensures
        v@ == s@,
{
    let mut v: Vec<char> = Vec::new();
    for c in it: s.chars()
        invariant
            it.seq() == s@,
            v@ == it.seq().take(it.index() as int),
    {
        v.push(c);
    }
    v
}

/// The character sequences that a vector of strings stands for.
pub open spec fn views(v: Seq<String>) -> Seq<Seq<char>> {
    Seq::new(v.len(), |i: int| v[i]@)
}

/// Skipping one more character drops the first of what was left.
pub proof fn lemma_skip_step(s: Seq<char>, i: int)
    requires
        0 <= i < s.len(),
    ensures
        s.skip(i).drop_first() == s.skip(i + 1),
        s.skip(i)[0] == s[i],
        s.skip(i).len() == s.len() - i,
{
    assert(s.skip(i).drop_first() =~= s.skip(i + 1));
}

/// Splits `s` into its pieces at the separator `sep`.
pub fn split(s: &str, sep: Separator) -> (out: Vec<String>)
    ensures
        views(out@) == pieces(s@, sep),
{
    let chars = chars_of(s);
    let n = chars.len();
    let mut out: Vec<String> = Vec::new();
    let mut i: usize = 0;
    assert(s@.skip(0) =~= s@);
    assert(views(out@) =~= Seq::<Seq<char>>::empty());
    while i < n
        invariant
            chars@ == s@,
            n == chars.len(),
            i <= n,
            pieces(s@, sep) == views(out@) + pieces(s@.skip(i as int), sep),
        decreases n - i,
    {
        proof {
            lemma_skip_step(s@, i as int);
        }
        if sep.test(chars[i]) {
            i += 1;
        } else {
            let start = i;
            let mut j: usize = i + 1;
            while j < n && !sep.test(chars[j])
                invariant
                    chars@ == s@,
                    n == chars.len(),
                    start < j <= n,
                    run_len(s@.skip(start as int), sep) == (j - start) + run_len(
                        s@.skip(j as int),
                        sep,
                    ),
                decreases n - j,
            {
                proof {
                    lemma_skip_step(s@, j as int);
                }
                j += 1;
            }
            proof {
                if j < n {
                    lemma_skip_step(s@, j as int);
                }
                let rest = s@.skip(start as int);
                assert(run_len(rest, sep) == j - start);
                assert(rest.take(j - start) =~= s@.subrange(start as int, j as int));
                assert(rest.skip(j - start) =~= s@.skip(j as int));
            }
            let word = String::from_str(s.substring_char(start, j));
            let ghost before = out@;
            out.push(word);
            proof {
                assert(views(out@) =~= views(before) + seq![word@]);
            }
            i = j;
        }
    }
    proof {
        assert(s@.skip(n as int).len() == 0);
        assert(views(out@) + Seq::<Seq<char>>::empty() =~= views(out@));
    }
    out
}

/// Whether `a` and `b` are the same text.
pub fn str_eq(a: &str, b: &str) -> (r: bool)
    ensures
        r == (a@ == b@),
{
    let x = chars_of(a);
    let y = chars_of(b);
    if x.len() != y.len() {
        return false;
    }
    let mut i: usize = 0;
    while i < x.len()
        invariant
            i <= x.len(),
            x.len() == y.len(),
            x@ == a@,
            y@ == b@,
            forall|k: int| 0 <= k < i ==> x[k] == y[k],
        decreases x.len() - i,
    {
        if x[i] != y[i] {
            return false;
        }
        i += 1;
    }
    assert(x@ =~= y@);
    true
}

/// Whether `text` begins with `prefix`.
pub fn starts_with(text: &str, prefix: &str) -> (r: bool)
    ensures
        r == prefix@.is_prefix_of(text@),
{
    let t = chars_of(text);
    let p = chars_of(prefix);
    if p.len() > t.len() {
        return false;
    }
    let mut i: usize = 0;
    while i < p.len()
        invariant
            i <= p.len() <= t.len(),
            t@ == text@,
            p@ == prefix@,
            forall|k: int| 0 <= k < i ==> t[k] == p[k],
        decreases p.len() - i,
    {
        if t[i] != p[i] {
            assert(text@.subrange(0, prefix@.len() as int)[i as int] != prefix@[i as int]);
            return false;
        }
        i += 1;
    }
    assert(text@.subrange(0, prefix@.len() as int) =~= prefix@);
    true
}

/// The code of `c`, with the upper-case letters A to Z taken to lower case.
pub open spec fn lower_code(c: char) -> u32 {
    let n = c as u32;
    if 0x41 <= n && n <= 0x5A {
        (n + 0x20) as u32
    } else {
        n
    }
}

/// Whether two texts are equal but for the case of the letters A to Z.
pub open spec fn same_ignoring_case(a: Seq<char>, b: Seq<char>) -> bool {
    a.len() == b.len() && forall|i: int| 0 <= i < a.len() ==> lower_code(#[trigger] a[i])
        == lower_code(b[i])
}

/// Executable form of `lower_code`.
fn char_lower_code(c: char) -> (r: u32)
    ensures
        r == lower_code(c),
{
    let n: u32 = c as u32;
    if 0x41 <= n && n <= 0x5A {
        n + 0x20
    } else {
        n
    }
}

/// Whether `a` and `b` are equal but for the case of the letters A to Z.
pub fn eq_ignore_ascii_case(a: &str, b: &str) -> (r: bool)
    ensures
        r == same_ignoring_case(a@, b@),
{
    let x = chars_of(a);
    let y = chars_of(b);
    if x.len() != y.len() {
        return false;
    }
    let mut i: usize = 0;
    while i < x.len()
        invariant
            i <= x.len(),
            x.len() == y.len(),
            x@ == a@,
            y@ == b@,
            forall|k: int| 0 <= k < i ==> lower_code(#[trigger] x[k]) == lower_code(y[k]),
        decreases x.len() - i,
    {
        if char_lower_code(x[i]) != char_lower_code(y[i]) {
            return false;
        }
        i += 1;
    }
    true
}

/// The length of the run of non-separator characters that `s` starts with.
pub fn leading_run(s: &Vec<char>, sep: Separator) -> (n: usize)
    ensures
        n == run_len(s@, sep),
{
    let mut i: usize = 0;
    assert(s@.skip(0) =~= s@);
    while i < s.len() && !sep.test(s[i])
        invariant
            i <= s.len(),
            run_len(s@, sep) == i + run_len(s@.skip(i as int), sep),
        decreases s.len() - i,
    {
        proof {
            lemma_skip_step(s@, i as int);
        }
        i += 1;
    }
    proof {
        if i < s.len() {
            lemma_skip_step(s@, i as int);
        }
    }
    i
}

/// Joins the strings of `ps` from position `from` on.
pub(crate) fn join_from(ps: &Vec<String>, from: usize, sep: Separator) -> (r: String)
    requires
        from <= ps.len(),
    ensures
        r@ == joined(views(ps@).skip(from as int), sep),
{
    let mut out = String::new();
    let mut i: usize = from;
    let ghost all = views(ps@).skip(from as int);
    let mark = sep.mark_str();
    proof {
        assert(all.take(0) =~= Seq::<Seq<char>>::empty());
    }
    while i < ps.len()
        invariant
            from <= i <= ps.len(),
            all == views(ps@).skip(from as int),
            mark@ == seq![sep.mark()],
            out@ == joined(all.take(i - from), sep),
        decreases ps.len() - i,
    {
        let ghost done = all.take(i - from);
        let ghost next = all.take(i - from + 1);
        proof {
            assert(next.drop_last() =~= done);
            assert(next.last() == ps[i as int]@);
        }
        if i > from {
            out.append(mark);
        }
        out.append(ps[i].as_str());
        proof {
            if i == from {
                assert(next.len() == 1);
                assert(out@ =~= next[0]);
            } else {
                assert(next.len() > 1);
                assert(out@ =~= joined(done, sep) + seq![sep.mark()] + next.last());
            }
        }
        i += 1;
    }
    proof {
        assert(all.take(i - from) =~= all);
    }
    out
}

/// Joins the strings of `ps` with one space between each two.
pub fn join_words(ps: &Vec<String>) -> (r: String)
    ensures
        r@ == joined(views(ps@), Separator::Whitespace),
{
    assert(views(ps@).skip(0) =~= views(ps@));
    join_from(ps, 0, Separator::Whitespace)
}

/// Splits `s` into its words, as `tokens` defines them.
pub fn split_whitespace(s: &str) -> (out: Vec<String>)
    ensures
        views(out@) == tokens(s@),
{
    split(s, Separator::Whitespace)
}

} // verus!
