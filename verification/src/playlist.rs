//! The playlist: the files under the music folder, in the order of their
//! paths.

use crate::order::{
    lemma_parts_le_total_ordering, lemma_path_le_total_preorder, parts_le_fn, path_le, path_le_fn,
    paths_le,
};
use crate::paths::{
    extension, extension_spec, file_name, file_name_spec, join, last_name, lemma_relative_parts,
    parts, relative_to, strip_root,
};
use crate::text::{split, str_eq, views, Separator};
use vstd::prelude::*;
use vstd::string::*;
use vstd::relations::sorted_by;
use vstd::seq_lib::lemma_multiset_commutative;
use vstd::std_specs::iter::IteratorSpec;

verus! {

/// One file of the playlist.
#[derive(Debug)]
pub struct Item {
    /// The path of the file, relative to the music folder.
    pub path: String,
}

impl View for Item {
    type V = Seq<char>;

    open spec fn view(&self) -> Seq<char> {
        self.path@
    }
}

impl Item {
    /// The item for the file at `path`.
    pub fn new(path: String) -> (r: Self)
        ensures
            r@ == path@,
    {
        Self { path }
    }
}

/// The paths of a sequence of items.
pub open spec fn item_views(v: Seq<Item>) -> Seq<Seq<char>> {
    Seq::new(v.len(), |i: int| v[i]@)
}

/// Whether the paths `s` stand in ascending order.
pub open spec fn ascending(s: Seq<Seq<char>>) -> bool {
    sorted_by(s, path_le_fn())
}

/// Whether the paths `s` stand in descending order.
pub open spec fn descending(s: Seq<Seq<char>>) -> bool {
    forall|i: int, j: int| 0 <= i < j < s.len() ==> path_le(#[trigger] s[j], #[trigger] s[i])
}

/// Whether each path of `lo` comes before or at each path of `hi`.
pub open spec fn all_le(lo: Seq<Seq<char>>, hi: Seq<Seq<char>>) -> bool {
    forall|i: int, k: int|
        0 <= i < lo.len() && 0 <= k < hi.len() ==> path_le(#[trigger] lo[i], #[trigger] hi[k])
}

/// Takes the last item off `v`.
fn take_last(v: &mut Vec<Item>) -> (x: Item)
    requires
        old(v).len() > 0,
    ensures
        x@ == item_views(old(v)@).last(),
        final(v).len() == old(v).len() - 1,
        item_views(final(v)@) == item_views(old(v)@).drop_last(),
        item_views(old(v)@).to_multiset() == item_views(final(v)@).to_multiset().insert(x@),
{
    let x = v.pop().unwrap();
    proof {
        let before = item_views(old(v)@);
        let after = item_views(v@);
        assert(after =~= before.drop_last());
        assert(before =~= after.push(x@));
        after.to_multiset_ensures();
    }
    x
}

/// Puts `x` behind the items of `v`.
fn put_last(v: &mut Vec<Item>, x: Item)
    ensures
        item_views(final(v)@) == item_views(old(v)@).push(x@),
        item_views(final(v)@).to_multiset() == item_views(old(v)@).to_multiset().insert(x@),
{
    v.push(x);
    proof {
        let before = item_views(old(v)@);
        assert(item_views(v@) =~= before.push(x@));
        before.to_multiset_ensures();
    }
}

/// Turns a descending vector into an ascending one with the same items.
fn reversed(rev: Vec<Item>) -> (out: Vec<Item>)
    requires
        descending(item_views(rev@)),
    ensures
        ascending(item_views(out@)),
        item_views(out@).to_multiset() == item_views(rev@).to_multiset(),
{
    let mut rev = rev;
    let mut out: Vec<Item> = Vec::new();
    let ghost total = item_views(rev@).to_multiset();
    assert(item_views(out@) =~= Seq::<Seq<char>>::empty());
    assert(item_views(out@).to_multiset() =~= vstd::multiset::Multiset::empty()) by {
        item_views(out@).to_multiset_ensures();
    }
    while rev.len() > 0
        invariant
            descending(item_views(rev@)),
            ascending(item_views(out@)),
            all_le(item_views(out@), item_views(rev@)),
            item_views(out@).to_multiset().add(item_views(rev@).to_multiset()) == total,
        decreases rev.len(),
    {
        let ghost r0 = item_views(rev@);
        let ghost o0 = item_views(out@);
        let x = take_last(&mut rev);
        put_last(&mut out, x);
        proof {
            let r1 = item_views(rev@);
            let o1 = item_views(out@);
            assert forall|i: int, j: int| 0 <= i < j < o1.len() implies path_le_fn()(
                #[trigger] o1[i],
                #[trigger] o1[j],
            ) by {
                if j < o0.len() {
                    assert(path_le_fn()(o0[i], o0[j]));
                } else {
                    assert(path_le(o0[i], r0[r0.len() - 1]));
                }
            }
            assert forall|i: int, k: int| 0 <= i < o1.len() && 0 <= k < r1.len() implies path_le(
                #[trigger] o1[i],
                #[trigger] r1[k],
            ) by {
                if i < o0.len() {
                    assert(path_le(o0[i], r0[k]));
                } else {
                    assert(path_le(r0[r0.len() - 1], r0[k]));
                }
            }
            assert forall|i: int, j: int| 0 <= i < j < r1.len() implies path_le(
                #[trigger] r1[j],
                #[trigger] r1[i],
            ) by {
                assert(path_le(r0[j], r0[i]));
            }
            assert(o1.to_multiset().add(r1.to_multiset()) =~= total);
        }
    }
    proof {
        assert(item_views(rev@) =~= Seq::<Seq<char>>::empty());
        item_views(rev@).to_multiset_ensures();
        assert(item_views(out@).to_multiset() =~= total);
    }
    out
}

/// Moves the items of `src`, from the last to the first, behind those of `rev`.
fn drain_onto(src: Vec<Item>, rev: &mut Vec<Item>)
    requires
        ascending(item_views(src@)),
        descending(item_views(old(rev)@)),
        all_le(item_views(src@), item_views(old(rev)@)),
    ensures
        descending(item_views(final(rev)@)),
        item_views(final(rev)@).to_multiset() == item_views(old(rev)@).to_multiset().add(
            item_views(src@).to_multiset(),
        ),
{
    let mut src = src;
    let ghost total = item_views(rev@).to_multiset().add(item_views(src@).to_multiset());
    while src.len() > 0
        invariant
            ascending(item_views(src@)),
            descending(item_views(rev@)),
            all_le(item_views(src@), item_views(rev@)),
            item_views(rev@).to_multiset().add(item_views(src@).to_multiset()) == total,
        decreases src.len(),
    {
        let ghost s0 = item_views(src@);
        let ghost r0 = item_views(rev@);
        let x = take_last(&mut src);
        put_last(rev, x);
        proof {
            let s1 = item_views(src@);
            let r1 = item_views(rev@);
            assert forall|i: int, j: int| 0 <= i < j < s1.len() implies path_le_fn()(
                #[trigger] s1[i],
                #[trigger] s1[j],
            ) by {
                assert(path_le_fn()(s0[i], s0[j]));
            }
            assert forall|i: int, j: int| 0 <= i < j < r1.len() implies path_le(
                #[trigger] r1[j],
                #[trigger] r1[i],
            ) by {
                if j < r0.len() {
                    assert(path_le(r0[j], r0[i]));
                } else {
                    assert(path_le(s0[s0.len() - 1], r0[i]));
                }
            }
            assert forall|i: int, k: int| 0 <= i < s1.len() && 0 <= k < r1.len() implies path_le(
                #[trigger] s1[i],
                #[trigger] r1[k],
            ) by {
                if k < r0.len() {
                    assert(path_le(s0[i], r0[k]));
                } else {
                    assert(path_le_fn()(s0[i], s0[s0.len() - 1]));
                }
            }
            assert(r1.to_multiset().add(s1.to_multiset()) =~= total);
        }
    }
    proof {
        assert(item_views(src@) =~= Seq::<Seq<char>>::empty());
        item_views(src@).to_multiset_ensures();
        assert(item_views(rev@).to_multiset() =~= total);
    }
}

/// Merges two ascending vectors into one.
fn merge(left: Vec<Item>, right: Vec<Item>) -> (out: Vec<Item>)
    requires
        ascending(item_views(left@)),
        ascending(item_views(right@)),
    ensures
        ascending(item_views(out@)),
        item_views(out@).to_multiset() == item_views(left@).to_multiset().add(
            item_views(right@).to_multiset(),
        ),
{
    let mut l = left;
    let mut r = right;
    let mut rev: Vec<Item> = Vec::new();
    let ghost total = item_views(l@).to_multiset().add(item_views(r@).to_multiset());
    proof {
        assert(item_views(rev@) =~= Seq::<Seq<char>>::empty());
        item_views(rev@).to_multiset_ensures();
        assert(item_views(rev@).to_multiset().add(item_views(l@).to_multiset()).add(
            item_views(r@).to_multiset(),
        ) =~= total);
        lemma_path_le_total_preorder();
    }
    while l.len() > 0 && r.len() > 0
        invariant
            ascending(item_views(l@)),
            ascending(item_views(r@)),
            descending(item_views(rev@)),
            all_le(item_views(l@), item_views(rev@)),
            all_le(item_views(r@), item_views(rev@)),
            item_views(rev@).to_multiset().add(item_views(l@).to_multiset()).add(
                item_views(r@).to_multiset(),
            ) == total,
        decreases l.len() + r.len(),
    {
        let ghost l0 = item_views(l@);
        let ghost r0 = item_views(r@);
        let ghost v0 = item_views(rev@);
        assert(l0.last() == l[l.len() - 1]@);
        assert(r0.last() == r[r.len() - 1]@);
        let from_right = paths_le(l[l.len() - 1].path.as_str(), r[r.len() - 1].path.as_str());
        proof {
            lemma_path_le_total_preorder();
            assert(path_le_fn()(l0.last(), r0.last()) || path_le_fn()(r0.last(), l0.last()));
        }
        let x = if from_right {
            take_last(&mut r)
        } else {
            take_last(&mut l)
        };
        put_last(&mut rev, x);
        proof {
            let l1 = item_views(l@);
            let r1 = item_views(r@);
            let v1 = item_views(rev@);
            assert forall|i: int, j: int| 0 <= i < j < l1.len() implies path_le_fn()(
                #[trigger] l1[i],
                #[trigger] l1[j],
            ) by {
                assert(path_le_fn()(l0[i], l0[j]));
            }
            assert forall|i: int, j: int| 0 <= i < j < r1.len() implies path_le_fn()(
                #[trigger] r1[i],
                #[trigger] r1[j],
            ) by {
                assert(path_le_fn()(r0[i], r0[j]));
            }
            assert forall|i: int, j: int| 0 <= i < j < v1.len() implies path_le(
                #[trigger] v1[j],
                #[trigger] v1[i],
            ) by {
                if j < v0.len() {
                    assert(path_le(v0[j], v0[i]));
                } else if from_right {
                    assert(path_le(r0[r0.len() - 1], v0[i]));
                } else {
                    assert(path_le(l0[l0.len() - 1], v0[i]));
                }
            }
            assert forall|i: int, k: int| 0 <= i < l1.len() && 0 <= k < v1.len() implies path_le(
                #[trigger] l1[i],
                #[trigger] v1[k],
            ) by {
                if k < v0.len() {
                    assert(path_le(l0[i], v0[k]));
                } else if from_right {
                    if i < l0.len() - 1 {
                        assert(path_le_fn()(l0[i], l0[l0.len() - 1]));
                    }
                    assert(path_le_fn()(l0[l0.len() - 1], r0[r0.len() - 1]));
                    assert(path_le_fn()(l0[i], r0[r0.len() - 1]));
                } else {
                    assert(path_le_fn()(l0[i], l0[l0.len() - 1]));
                }
            }
            assert forall|i: int, k: int| 0 <= i < r1.len() && 0 <= k < v1.len() implies path_le(
                #[trigger] r1[i],
                #[trigger] v1[k],
            ) by {
                if k < v0.len() {
                    assert(path_le(r0[i], v0[k]));
                } else if from_right {
                    assert(path_le_fn()(r0[i], r0[r0.len() - 1]));
                } else {
                    if i < r0.len() - 1 {
                        assert(path_le_fn()(r0[i], r0[r0.len() - 1]));
                    }
                    assert(path_le_fn()(r0[r0.len() - 1], l0[l0.len() - 1]));
                    assert(path_le_fn()(r0[i], l0[l0.len() - 1]));
                }
            }
            assert(v1.to_multiset().add(l1.to_multiset()).add(r1.to_multiset()) =~= total);
        }
    }
    // One of the two is used up; what the other still holds goes last.
    if l.len() > 0 {
        proof {
            assert(item_views(r@) =~= Seq::<Seq<char>>::empty());
            item_views(r@).to_multiset_ensures();
        }
        drain_onto(l, &mut rev);
    } else {
        proof {
            assert(item_views(l@) =~= Seq::<Seq<char>>::empty());
            item_views(l@).to_multiset_ensures();
        }
        drain_onto(r, &mut rev);
    }
    proof {
        assert(item_views(rev@).to_multiset() =~= total);
    }
    reversed(rev)
}

/// Sorts `v` into ascending order of the paths.
fn merge_sort(v: Vec<Item>) -> (out: Vec<Item>)
    ensures
        ascending(item_views(out@)),
        item_views(out@).to_multiset() == item_views(v@).to_multiset(),
    decreases v.len(),
{
    if v.len() <= 1 {
        return v;
    }
    let mut left = v;
    let mid = left.len() / 2;
    let right = left.split_off(mid);
    proof {
        let all = item_views(v@);
        let l = item_views(left@);
        let r = item_views(right@);
        assert(all =~= l + r);
        lemma_multiset_commutative(l, r);
    }
    let left = merge_sort(left);
    let right = merge_sort(right);
    merge(left, right)
}

/// The files to play, in ascending order of their paths once `sort` or
/// `read_songs` has run.
#[derive(Debug)]
pub struct Playlist {
    items: Vec<Item>,
}

impl View for Playlist {
    type V = Seq<Seq<char>>;

    /// The paths of the items, in their order.
    closed spec fn view(&self) -> Seq<Seq<char>> {
        item_views(self.items@)
    }
}

impl Default for Playlist {
    /// The playlist without items.
    fn default() -> (r: Self)
        ensures
            r@ == Seq::<Seq<char>>::empty(),
    {
        let r = Playlist { items: Vec::new() };
        assert(r@ =~= Seq::<Seq<char>>::empty());
        r
    }
}

impl Playlist {
    /// The items, in their order.
    pub closed spec fn items_spec(&self) -> Seq<Item> {
        self.items@
    }

    /// The view is the paths of the items.
    pub proof fn lemma_view_of_items(&self)
        ensures
            self@ == item_views(self.items_spec()),
    {
    }

    /// Puts the items into ascending order of their paths. Items with the
    /// same path may change places.
    pub fn sort(&mut self)
        ensures
            ascending(final(self)@),
            final(self)@.to_multiset() == old(self)@.to_multiset(),
            final(self)@.len() == old(self)@.len(),
    {
        let mut items: Vec<Item> = Vec::new();
        std::mem::swap(&mut self.items, &mut items);
        self.items = merge_sort(items);
        proof {
            self@.to_multiset_ensures();
            old(self)@.to_multiset_ensures();
        }
    }

    /// The item at position `idx`, if there is one.
    pub fn get(&self, idx: usize) -> (r: Option<&Item>)
        ensures
            idx < self@.len() ==> r is Some && *r->Some_0 == self.items_spec()[idx as int]
                && r->Some_0@ == self@[idx as int],
            idx >= self@.len() ==> r is None,
    {
        if idx < self.items.len() {
            Some(&self.items[idx])
        } else {
            None
        }
    }

    /// The number of items.
    pub fn len(&self) -> (n: usize)
        ensures
            n == self@.len(),
    {
        self.items.len()
    }

    /// An iterator over the items, in their order.
    pub fn iter(&self) -> (it: std::slice::Iter<'_, Item>)
        ensures
            IteratorSpec::remaining(&it) == self.items_spec().as_ref(),
    {
        broadcast use vstd::std_specs::slice::axiom_spec_slice_iter;

        self.items.as_slice().iter()
    }
}

/// What a scan of the music folder goes by.
#[derive(Debug)]
pub struct ScanOptions {
    /// The folder that holds the music, if one is set.
    pub music_folder: Option<String>,
    /// Whether the walk goes through symbolic links.
    pub follow_symlinks: bool,
    /// Whether hidden files and folders are left out.
    pub skip_hidden: bool,
}

/// One entry that a walk of the music folder came upon.
#[derive(Debug)]
pub struct WalkEntry {
    /// The path of the entry: that of the music folder and the names below it.
    pub path: String,
    /// Whether the entry is a regular file.
    pub is_file: bool,
}

/// What a walk entry is, as mathematics.
pub struct WalkEntryModel {
    pub path: Seq<char>,
    pub is_file: bool,
}

impl View for WalkEntry {
    type V = WalkEntryModel;

    open spec fn view(&self) -> WalkEntryModel {
        WalkEntryModel { path: self.path@, is_file: self.is_file }
    }
}

/// The models of a sequence of walk entries.
pub open spec fn walk_views(v: Seq<WalkEntry>) -> Seq<WalkEntryModel> {
    Seq::new(v.len(), |i: int| v[i]@)
}

/// A hidden name: one that begins with a dot.
pub open spec fn is_hidden_name(name: Seq<char>) -> bool {
    name.len() > 0 && name[0] == '.'
}

/// The name under which a walk knows the entry at `path`: its file name, or
/// the whole path where it has none.
pub open spec fn walk_name(path: Seq<char>) -> Seq<char> {
    match file_name_spec(path) {
        Some(name) => name,
        None => path,
    }
}

/// Whether a walk that may skip hidden entries goes on with an entry of the
/// given name: it yields the entry and, where it is a folder, enters it.
pub open spec fn enters_spec(skip_hidden: bool, name: Seq<char>) -> bool {
    !skip_hidden || !is_hidden_name(name)
}

/// Whether one of the components `ps` is hidden.
pub open spec fn has_hidden_part(ps: Seq<Seq<char>>) -> bool {
    exists|i: int| 0 <= i < ps.len() && is_hidden_name(#[trigger] ps[i])
}

/// Whether a walk from `root` that skips hidden entries never comes upon the
/// entry at `rel` below it: the root or a component of `rel` is hidden.
pub open spec fn is_pruned(root: Seq<char>, rel: Seq<char>) -> bool {
    is_hidden_name(walk_name(root)) || has_hidden_part(parts(rel))
}

/// The extensions of files that are no music.
pub open spec fn excluded_ext(ext: Seq<char>) -> bool {
    ext == "jpg"@ || ext == "png"@ || ext == "txt"@
}

/// The path under which the entry `e` joins the playlist, if it does: it is a
/// regular file, its extension is not excluded, it lies under `root`, and it
/// is not hidden where hidden entries are skipped.
pub open spec fn song_path(e: WalkEntryModel, root: Seq<char>, skip_hidden: bool) -> Option<
    Seq<char>,
> {
    if !e.is_file {
        None
    } else if extension_spec(e.path) is Some && excluded_ext(extension_spec(e.path)->Some_0) {
        None
    } else {
        match relative_to(e.path, root) {
            None => None,
            Some(rel) => if skip_hidden && is_pruned(root, rel) {
                None
            } else {
                Some(rel)
            },
        }
    }
}

/// The paths of the songs among `entries`, in the order of the entries.
pub open spec fn songs(entries: Seq<WalkEntryModel>, root: Seq<char>, skip_hidden: bool) -> Seq<
    Seq<char>,
>
    decreases entries.len(),
{
    if entries.len() == 0 {
        Seq::empty()
    } else {
        let before = songs(entries.drop_last(), root, skip_hidden);
        match song_path(entries.last(), root, skip_hidden) {
            Some(p) => before.push(p),
            None => before,
        }
    }
}

/// Whether `name` is hidden: whether it begins with a dot.
pub fn is_hidden(name: &str) -> (r: bool)
    ensures
        r == is_hidden_name(name@),
{
    name.unicode_len() > 0 && name.get_char(0) == '.'
}

/// Whether a walk goes on with an entry of the given name.
pub fn enters(skip_hidden: bool, name: &str) -> (r: bool)
    ensures
        r == enters_spec(skip_hidden, name@),
{
    if skip_hidden {
        !is_hidden(name)
    } else {
        true
    }
}

/// Whether files with the extension `ext` are left out of the playlist.
pub fn is_excluded_ext(ext: &str) -> (r: bool)
    ensures
        r == excluded_ext(ext@),
{
    str_eq(ext, "jpg") || str_eq(ext, "png") || str_eq(ext, "txt")
}

/// Whether the root of a walk is hidden.
fn root_is_hidden(root: &str) -> (r: bool)
    ensures
        r == is_hidden_name(walk_name(root@)),
{
    match file_name(root) {
        Some(name) => is_hidden(name.as_str()),
        None => is_hidden(root),
    }
}

/// Whether one of the components of `rel` is hidden.
fn any_hidden_part(rel: &str) -> (r: bool)
    ensures
        r == has_hidden_part(parts(rel@)),
{
    let ps = split(rel, Separator::Slash);
    let mut i: usize = 0;
    while i < ps.len()
        invariant
            i <= ps.len(),
            views(ps@) == parts(rel@),
            forall|k: int| 0 <= k < i ==> !is_hidden_name(#[trigger] parts(rel@)[k]),
        decreases ps.len() - i,
    {
        assert(parts(rel@)[i as int] == ps[i as int]@);
        if is_hidden(ps[i].as_str()) {
            return true;
        }
        i += 1;
    }
    false
}

/// The path under which `e` joins the playlist, as `song_path` defines it.
fn song_of(e: &WalkEntry, root: &str, skip_hidden: bool, root_hidden: bool) -> (r: Option<String>)
    requires
        root_hidden == is_hidden_name(walk_name(root@)),
    ensures
        crate::paths::opt_view(r) == song_path(e@, root@, skip_hidden),
{
    if !e.is_file {
        return None;
    }
    let excluded = match extension(e.path.as_str()) {
        Some(ext) => is_excluded_ext(ext.as_str()),
        None => false,
    };
    if excluded {
        return None;
    }
    match strip_root(e.path.as_str(), root) {
        None => None,
        Some(rel) => {
            if skip_hidden && (root_hidden || any_hidden_part(rel.as_str())) {
                None
            } else {
                Some(rel)
            }
        },
    }
}

impl Playlist {
    /// Rebuilds the playlist from the entries that a walk of the music folder
    /// came upon, in whatever order. What the playlist held before is
    /// dropped. Without a music folder the playlist is empty. Else it holds
    /// the songs among the entries, each under its path as seen from the
    /// music folder, in ascending order of those paths. Hidden entries are
    /// left out where they are to be skipped, whether or not the walk has
    /// skipped them already.
    pub fn read_songs(&mut self, opts: &ScanOptions, entries: &Vec<WalkEntry>)
        ensures
            match opts.music_folder {
                None => final(self)@ == Seq::<Seq<char>>::empty(),
                Some(root) => {
                    &&& ascending(final(self)@)
                    &&& final(self)@.to_multiset() == songs(
                        walk_views(entries@),
                        root@,
                        opts.skip_hidden,
                    ).to_multiset()
                    &&& final(self)@.len() == songs(
                        walk_views(entries@),
                        root@,
                        opts.skip_hidden,
                    ).len()
                },
            },
    {
        self.items.clear();
        assert(self@ =~= Seq::<Seq<char>>::empty());
        let root = match &opts.music_folder {
            Some(root) => root.as_str(),
            None => {
                return;
            },
        };
        let skip_hidden = opts.skip_hidden;
        let root_hidden = root_is_hidden(root);
        let mut i: usize = 0;
        assert(walk_views(entries@).take(0) =~= Seq::<WalkEntryModel>::empty());
        while i < entries.len()
            invariant
                i <= entries.len(),
                root_hidden == is_hidden_name(walk_name(root@)),
                item_views(self.items@) == songs(
                    walk_views(entries@).take(i as int),
                    root@,
                    skip_hidden,
                ),
            decreases entries.len() - i,
        {
            let ghost next = walk_views(entries@).take(i + 1);
            proof {
                assert(next.drop_last() =~= walk_views(entries@).take(i as int));
                assert(next.last() == entries[i as int]@);
            }
            match song_of(&entries[i], root, skip_hidden, root_hidden) {
                Some(rel) => {
                    put_last(&mut self.items, Item::new(rel));
                },
                None => {},
            }
            i += 1;
        }
        assert(walk_views(entries@).take(i as int) =~= walk_views(entries@));
        self.sort();
    }
}

/// Every path among the songs is the path of one of the entries.
pub proof fn lemma_song_has_entry(
    entries: Seq<WalkEntryModel>,
    root: Seq<char>,
    skip_hidden: bool,
    k: int,
) -> (i: int)
    requires
        0 <= k < songs(entries, root, skip_hidden).len(),
    ensures
        0 <= i < entries.len(),
        song_path(entries[i], root, skip_hidden) == Some(songs(entries, root, skip_hidden)[k]),
    decreases entries.len(),
{
    let before = songs(entries.drop_last(), root, skip_hidden);
    if k < before.len() {
        let i = lemma_song_has_entry(entries.drop_last(), root, skip_hidden, k);
        assert(entries.drop_last()[i] == entries[i]);
        i
    } else {
        entries.len() - 1
    }
}

/// Every entry that is a song has its path among the songs.
pub proof fn lemma_entry_has_song(
    entries: Seq<WalkEntryModel>,
    root: Seq<char>,
    skip_hidden: bool,
    i: int,
)
    requires
        0 <= i < entries.len(),
        song_path(entries[i], root, skip_hidden) is Some,
    ensures
        songs(entries, root, skip_hidden).contains(
            song_path(entries[i], root, skip_hidden)->Some_0,
        ),
    decreases entries.len(),
{
    let before = songs(entries.drop_last(), root, skip_hidden);
    let all = songs(entries, root, skip_hidden);
    let p = song_path(entries[i], root, skip_hidden)->Some_0;
    if i < entries.len() - 1 {
        assert(entries.drop_last()[i] == entries[i]);
        lemma_entry_has_song(entries.drop_last(), root, skip_hidden, i);
        let k = choose|k: int| 0 <= k < before.len() && before[k] == p;
        assert(all[k] == p);
    } else {
        assert(all[all.len() - 1] == p);
    }
}

/// Two sequences with the same members, each as often, have the same members.
pub proof fn lemma_same_members<T>(a: Seq<T>, b: Seq<T>, k: int) -> (j: int)
    requires
        a.to_multiset() == b.to_multiset(),
        0 <= k < a.len(),
    ensures
        0 <= j < b.len(),
        b[j] == a[k],
{
    a.to_multiset_ensures();
    b.to_multiset_ensures();
    assert(a.contains(a[k]));
    assert(a.to_multiset().count(a[k]) > 0);
    assert(b.to_multiset().count(a[k]) > 0);
    assert(b.contains(a[k]));
    choose|j: int| 0 <= j < b.len() && b[j] == a[k]
}

/// Where hidden entries are skipped, no path of the playlist has a hidden
/// component, however many files lie below a hidden folder; and where the
/// music folder itself is hidden, the playlist is empty.
pub proof fn lemma_hidden_is_never_listed(
    list: Seq<Seq<char>>,
    entries: Seq<WalkEntryModel>,
    root: Seq<char>,
)
    requires
        list.to_multiset() == songs(entries, root, true).to_multiset(),
    ensures
        forall|k: int| 0 <= k < list.len() ==> !has_hidden_part(parts(#[trigger] list[k])),
        is_hidden_name(walk_name(root)) ==> list.len() == 0,
{
    let all = songs(entries, root, true);
    assert forall|k: int| 0 <= k < list.len() implies !has_hidden_part(parts(#[trigger] list[k]))
        && !is_hidden_name(walk_name(root)) by {
        let j = lemma_same_members(list, all, k);
        let i = lemma_song_has_entry(entries, root, true, j);
    }
    if is_hidden_name(walk_name(root)) && list.len() > 0 {
        let j = lemma_same_members(list, all, 0);
        let i = lemma_song_has_entry(entries, root, true, j);
    }
}

/// The file name of a path that is seen from a root is that of the path.
pub proof fn lemma_last_name_of_suffix(ps: Seq<Seq<char>>, k: int)
    requires
        0 <= k <= ps.len(),
        last_name(ps.skip(k)) is Some,
    ensures
        last_name(ps) == last_name(ps.skip(k)),
    decreases ps.len(),
{
    let tail = ps.skip(k);
    if tail.len() > 0 {
        assert(tail.last() == ps.last());
        if ps.last() == crate::paths::dot() {
            assert(tail.drop_last() =~= ps.drop_last().skip(k));
            lemma_last_name_of_suffix(ps.drop_last(), k);
        }
    }
}

/// No path of the playlist has one of the excluded extensions.
pub proof fn lemma_excluded_is_never_listed(
    list: Seq<Seq<char>>,
    entries: Seq<WalkEntryModel>,
    root: Seq<char>,
    skip_hidden: bool,
)
    requires
        list.to_multiset() == songs(entries, root, skip_hidden).to_multiset(),
    ensures
        forall|k: int|
            0 <= k < list.len() ==> !(extension_spec(#[trigger] list[k]) is Some && excluded_ext(
                extension_spec(list[k])->Some_0,
            )),
{
    let all = songs(entries, root, skip_hidden);
    assert forall|k: int| 0 <= k < list.len() implies !(extension_spec(#[trigger] list[k]) is Some
        && excluded_ext(extension_spec(list[k])->Some_0)) by {
        let j = lemma_same_members(list, all, k);
        let i = lemma_song_has_entry(entries, root, skip_hidden, j);
        let e = entries[i];
        let rel = list[k];
        if extension_spec(rel) is Some {
            lemma_relative_parts(e.path, root);
            lemma_last_name_of_suffix(parts(e.path), parts(root).len() as int);
            assert(file_name_spec(rel) == file_name_spec(e.path));
        }
    }
}

/// A path that reads the same when its components are written as a path
/// again: without a slash at its ends and without two slashes in a row.
pub open spec fn is_plain(p: Seq<char>) -> bool {
    join(parts(p)) == p
}

/// Every path among the songs is plain.
pub proof fn lemma_songs_are_plain(entries: Seq<WalkEntryModel>, root: Seq<char>, skip_hidden: bool)
    ensures
        forall|k: int|
            0 <= k < songs(entries, root, skip_hidden).len() ==> is_plain(
                #[trigger] songs(entries, root, skip_hidden)[k],
            ),
{
    let all = songs(entries, root, skip_hidden);
    assert forall|k: int| 0 <= k < all.len() implies is_plain(#[trigger] all[k]) by {
        let i = lemma_song_has_entry(entries, root, skip_hidden, k);
        lemma_relative_parts(entries[i].path, root);
    }
}

/// The order of a playlist is determined by what it holds: two ascending
/// sequences of plain paths that hold the same paths, each as often, are
/// the same sequence.
pub proof fn lemma_order_is_determined(a: Seq<Seq<char>>, b: Seq<Seq<char>>)
    requires
        ascending(a),
        ascending(b),
        a.to_multiset() == b.to_multiset(),
        forall|k: int| 0 <= k < a.len() ==> is_plain(#[trigger] a[k]),
    ensures
        a == b,
    decreases a.len(),
{
    a.to_multiset_ensures();
    b.to_multiset_ensures();
    if a.len() == 0 {
        assert(a =~= b);
    } else {
        let ja = lemma_same_members(a, b, 0);
        let jb = lemma_same_members(b, a, 0);
        lemma_path_le_total_preorder();
        lemma_parts_le_total_ordering();
        assert(path_le_fn()(a[0], b[0])) by {
            if jb > 0 {
                assert(path_le_fn()(a[0], a[jb]));
            } else {
                assert(path_le_fn()(a[0], a[0]));
            }
        }
        assert(path_le_fn()(b[0], a[0])) by {
            if ja > 0 {
                assert(path_le_fn()(b[0], b[ja]));
            } else {
                assert(path_le_fn()(b[0], b[0]));
            }
        }
        assert(parts_le_fn()(parts(a[0]), parts(b[0])) && parts_le_fn()(parts(b[0]), parts(a[0])));
        assert(parts(a[0]) == parts(b[0]));
        assert(is_plain(a[0]));
        assert(is_plain(b[0])) by {
            assert(is_plain(a[ja]));
        }
        assert(a[0] == b[0]);
        let x = a.drop_first();
        let y = b.drop_first();
        assert(a.remove(0) =~= x);
        assert(b.remove(0) =~= y);
        assert(x.to_multiset() =~= y.to_multiset());
        assert forall|i: int, j: int| 0 <= i < j < x.len() implies path_le_fn()(
            #[trigger] x[i],
            #[trigger] x[j],
        ) by {
            assert(path_le_fn()(a[i + 1], a[j + 1]));
        }
        assert forall|i: int, j: int| 0 <= i < j < y.len() implies path_le_fn()(
            #[trigger] y[i],
            #[trigger] y[j],
        ) by {
            assert(path_le_fn()(b[i + 1], b[j + 1]));
        }
        assert forall|k: int| 0 <= k < x.len() implies is_plain(#[trigger] x[k]) by {
            assert(x[k] == a[k + 1]);
        }
        lemma_order_is_determined(x, y);
        assert(a =~= seq![a[0]] + x);
        assert(b =~= seq![b[0]] + y);
    }
}

/// The multiset `m` with the path `p` added, where there is one.
pub open spec fn with_song(
    m: vstd::multiset::Multiset<Seq<char>>,
    p: Option<Seq<char>>,
) -> vstd::multiset::Multiset<Seq<char>> {
    match p {
        Some(path) => m.insert(path),
        None => m,
    }
}

/// The songs of a walk are those of the walk without one entry, and the song
/// of that entry.
pub proof fn lemma_songs_without_entry(
    entries: Seq<WalkEntryModel>,
    j: int,
    root: Seq<char>,
    skip_hidden: bool,
)
    requires
        0 <= j < entries.len(),
    ensures
        songs(entries, root, skip_hidden).to_multiset() == with_song(
            songs(entries.remove(j), root, skip_hidden).to_multiset(),
            song_path(entries[j], root, skip_hidden),
        ),
    decreases entries.len(),
{
    let init = entries.drop_last();
    let rest = entries.remove(j);
    songs(init, root, skip_hidden).to_multiset_ensures();
    if j == entries.len() - 1 {
        assert(rest =~= init);
    } else {
        lemma_songs_without_entry(init, j, root, skip_hidden);
        assert(rest.drop_last() =~= init.remove(j));
        assert(rest.last() == entries.last());
        assert(init[j] == entries[j]);
        songs(init.remove(j), root, skip_hidden).to_multiset_ensures();
        let m = songs(init.remove(j), root, skip_hidden).to_multiset();
        let pj = song_path(entries[j], root, skip_hidden);
        let pl = song_path(entries.last(), root, skip_hidden);
        assert(with_song(with_song(m, pj), pl) =~= with_song(with_song(m, pl), pj));
    }
}

/// Walks that came upon the same entries, in whatever order, have the same
/// songs, each as often.
pub proof fn lemma_songs_same_multiset(
    walk_a: Seq<WalkEntryModel>,
    walk_b: Seq<WalkEntryModel>,
    root: Seq<char>,
    skip_hidden: bool,
)
    requires
        walk_a.to_multiset() == walk_b.to_multiset(),
    ensures
        songs(walk_a, root, skip_hidden).to_multiset() == songs(
            walk_b,
            root,
            skip_hidden,
        ).to_multiset(),
    decreases walk_a.len(),
{
    walk_a.to_multiset_ensures();
    walk_b.to_multiset_ensures();
    if walk_a.len() == 0 {
        assert(walk_b.len() == 0);
        assert(walk_a =~= walk_b);
    } else {
        let last = walk_a.len() - 1;
        let j = lemma_same_members(walk_a, walk_b, last);
        assert(walk_a.remove(last).to_multiset() =~= walk_b.remove(j).to_multiset());
        lemma_songs_same_multiset(walk_a.remove(last), walk_b.remove(j), root, skip_hidden);
        lemma_songs_without_entry(walk_a, last, root, skip_hidden);
        lemma_songs_without_entry(walk_b, j, root, skip_hidden);
    }
}

/// Two playlists built from walks of the same tree are the same, in whatever
/// order the walks came upon the entries.
pub proof fn lemma_rebuild_is_stable(
    first: Seq<Seq<char>>,
    second: Seq<Seq<char>>,
    walk_a: Seq<WalkEntryModel>,
    walk_b: Seq<WalkEntryModel>,
    root: Seq<char>,
    skip_hidden: bool,
)
    requires
        ascending(first),
        ascending(second),
        first.to_multiset() == songs(walk_a, root, skip_hidden).to_multiset(),
        second.to_multiset() == songs(walk_b, root, skip_hidden).to_multiset(),
        walk_a.to_multiset() == walk_b.to_multiset(),
    ensures
        first == second,
{
    lemma_songs_same_multiset(walk_a, walk_b, root, skip_hidden);
    lemma_songs_are_plain(walk_a, root, skip_hidden);
    let all = songs(walk_a, root, skip_hidden);
    assert forall|k: int| 0 <= k < first.len() implies is_plain(#[trigger] first[k]) by {
        let j = lemma_same_members(first, all, k);
    }
    lemma_order_is_determined(first, second);
}

} // verus!
