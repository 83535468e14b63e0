//! Predicates: the tests that decide whether a rule applies to a file.

use crate::paths::{extension, extension_spec, file_name, file_name_spec};
use crate::text::{
    eq_ignore_ascii_case, is_blank, lemma_no_pieces_iff_void, same_ignoring_case,
    split_whitespace, starts_with, tokens, views, Separator,
};
use vstd::prelude::*;
use vstd::string::*;

verus! {

/// A test on the extension of a file.
#[derive(Debug)]
pub struct HasExtsPredicate {
    /// The extensions that pass, separated by whitespace.
    pub ext_list: String,
    /// Whether upper and lower case differ in the comparison.
    pub case_sensitive: bool,
}

/// A test on the path of a file.
#[derive(Debug)]
pub enum Predicate {
    /// The file name begins with the given text.
    BeginsWith(String),
    /// The extension is one of a list.
    HasExts(HasExtsPredicate),
}

/// What a predicate is, as mathematics.
pub enum PredicateModel {
    BeginsWith(Seq<char>),
    HasExts { ext_list: Seq<char>, case_sensitive: bool },
}

impl View for HasExtsPredicate {
    type V = PredicateModel;

    open spec fn view(&self) -> PredicateModel {
        PredicateModel::HasExts { ext_list: self.ext_list@, case_sensitive: self.case_sensitive }
    }
}

impl View for Predicate {
    type V = PredicateModel;

    open spec fn view(&self) -> PredicateModel {
        match self {
            Predicate::BeginsWith(fragment) => PredicateModel::BeginsWith(fragment@),
            Predicate::HasExts(p) => p@,
        }
    }
}

/// The models of a sequence of predicates.
pub open spec fn predicate_views(v: Seq<Predicate>) -> Seq<PredicateModel> {
    Seq::new(v.len(), |i: int| v[i]@)
}

/// Whether the candidate `cand` of an extension list accepts the extension
/// `ext`: by equality, or by equality up to the case of the letters A to Z.
pub open spec fn ext_accepts(cand: Seq<char>, ext: Seq<char>, sensitive: bool) -> bool {
    if sensitive {
        ext == cand
    } else {
        same_ignoring_case(ext, cand)
    }
}

/// Whether one of the candidates in the list `exts` accepts the extension `ext`.
pub open spec fn ext_listed(exts: Seq<char>, ext: Seq<char>, sensitive: bool) -> bool {
    exists|i: int|
        0 <= i < tokens(exts).len() && ext_accepts(#[trigger] tokens(exts)[i], ext, sensitive)
}

/// Whether the file name of `path` begins with `fragment`.
pub open spec fn matches_begin_spec(fragment: Seq<char>, path: Seq<char>) -> bool {
    match file_name_spec(path) {
        Some(name) => fragment.is_prefix_of(name),
        None => false,
    }
}

/// Whether the extension of `path` is among those that `exts` lists.
pub open spec fn matches_exts_spec(exts: Seq<char>, path: Seq<char>, sensitive: bool) -> bool {
    match extension_spec(path) {
        Some(ext) => ext_listed(exts, ext, sensitive),
        None => false,
    }
}

/// Whether the predicate `p` holds of `path`.
pub open spec fn matches_spec(p: PredicateModel, path: Seq<char>) -> bool {
    match p {
        PredicateModel::BeginsWith(fragment) => matches_begin_spec(fragment, path),
        PredicateModel::HasExts { ext_list, case_sensitive } => matches_exts_spec(
            ext_list,
            path,
            case_sensitive,
        ),
    }
}

/// Whether at least one of the predicates `ps` holds of `path`.
pub open spec fn matches_any_spec(ps: Seq<PredicateModel>, path: Seq<char>) -> bool {
    exists|i: int| 0 <= i < ps.len() && matches_spec(#[trigger] ps[i], path)
}

impl Predicate {
    /// Whether this predicate holds of `path`.
    pub fn matches(&self, path: &str) -> (r: bool)
        ensures
            r == matches_spec(self@, path@),
    {
        match self {
            Predicate::BeginsWith(fragment) => Self::matches_begin(fragment.as_str(), path),
            Predicate::HasExts(HasExtsPredicate { ext_list, case_sensitive }) => {
                Self::matches_exts(ext_list.as_str(), path, *case_sensitive)
            },
        }
    }

    /// Whether the file name of `path` begins with `fragment`.
    pub fn matches_begin(fragment: &str, path: &str) -> (r: bool)
        ensures
            r == matches_begin_spec(fragment@, path@),
    {
        match file_name(path) {
            Some(name) => starts_with(name.as_str(), fragment),
            None => false,
        }
    }

    /// Whether the extension of `path` is one of `exts`, a list of extensions
    /// separated by whitespace.
    pub fn matches_exts(exts: &str, path: &str, sensitive: bool) -> (r: bool)
        ensures
            r == matches_exts_spec(exts@, path@, sensitive),
    {
        match extension(path) {
            Some(path_ext) => {
                let cands = split_whitespace(exts);
                let mut i: usize = 0;
                while i < cands.len()
                    invariant
                        i <= cands.len(),
                        views(cands@) == tokens(exts@),
                        extension_spec(path@) == Some(path_ext@),
                        forall|k: int|
                            0 <= k < i ==> !ext_accepts(
                                #[trigger] tokens(exts@)[k],
                                path_ext@,
                                sensitive,
                            ),
                    decreases cands.len() - i,
                {
                    let cand = &cands[i];
                    assert(tokens(exts@)[i as int] == cand@);
                    let hit = if sensitive {
                        path_ext == *cand
                    } else {
                        eq_ignore_ascii_case(path_ext.as_str(), cand.as_str())
                    };
                    if hit {
                        return true;
                    }
                    i += 1;
                }
                false
            },
            None => false,
        }
    }
}

/// Tests on a whole group of predicates.
pub trait PredicateSliceExt {
    /// The predicates of the group, in order.
    spec fn models(&self) -> Seq<PredicateModel>;

    /// Whether at least one predicate of the group holds of `path`. An empty
    /// group holds of no path.
    fn find_predicate_match(&self, path: &str) -> (r: bool)
        ensures
            r == matches_any_spec(self.models(), path@),
    ;
}

impl PredicateSliceExt for [Predicate] {
    open spec fn models(&self) -> Seq<PredicateModel> {
        predicate_views(self@)
    }

    fn find_predicate_match(&self, path: &str) -> (r: bool) {
        let mut i: usize = 0;
        while i < self.len()
            invariant
                i <= self.len(),
                forall|k: int|
                    0 <= k < i ==> !matches_spec(#[trigger] predicate_views(self@)[k], path@),
            decreases self.len() - i,
        {
            if self[i].matches(path) {
                assert(matches_spec(predicate_views(self@)[i as int], path@));
                return true;
            }
            i += 1;
        }
        false
    }
}

/// The kind of a predicate, without its contents.
#[derive(Debug, Clone, Copy, PartialEq, Eq, Structural)]
pub enum PredicateKind {
    BeginsWith,
    HasExts,
}

impl PredicateModel {
    /// The kind of this predicate.
    pub open spec fn kind(self) -> PredicateKind {
        match self {
            PredicateModel::BeginsWith(_) => PredicateKind::BeginsWith,
            PredicateModel::HasExts { .. } => PredicateKind::HasExts,
        }
    }
}

impl From<&Predicate> for PredicateKind {
    fn from(p: &Predicate) -> (k: PredicateKind) {
        match p {
            Predicate::BeginsWith(_) => PredicateKind::BeginsWith,
            Predicate::HasExts(_) => PredicateKind::HasExts,
        }
    }
}

impl vstd::std_specs::convert::FromSpecImpl<&Predicate> for PredicateKind {
    open spec fn obeys_from_spec() -> bool {
        true
    }

    open spec fn from_spec(p: &Predicate) -> PredicateKind {
        p@.kind()
    }
}

impl PredicateKind {
    /// The name of the kind, as a choice shows it.
    pub open spec fn label_spec(self) -> Seq<char> {
        match self {
            PredicateKind::BeginsWith => "Begins with"@,
            PredicateKind::HasExts => "Has extension(s)"@,
        }
    }

    /// The explanation of the kind, as a hint shows it.
    pub open spec fn desc_spec(self) -> Seq<char> {
        match self {
            PredicateKind::BeginsWith => "Begins with a string (e.g. `mdat.`) for TFMX files"@,
            PredicateKind::HasExts => {
                "Space separated list of file extensions (e.g. `mod xm it`) for module files"@
            },
        }
    }

    /// The name of the kind.
    pub fn label(&self) -> (r: &str)
        ensures
            r@ == self.label_spec(),
    {
        match self {
            PredicateKind::BeginsWith => "Begins with",
            PredicateKind::HasExts => "Has extension(s)",
        }
    }

    /// The explanation of the kind.
    pub fn desc(&self) -> (r: &'static str)
        ensures
            r@ == self.desc_spec(),
    {
        match self {
            PredicateKind::BeginsWith => "Begins with a string (e.g. `mdat.`) for TFMX files",
            PredicateKind::HasExts => {
                "Space separated list of file extensions (e.g. `mod xm it`) for module files"
            },
        }
    }
}

impl Clone for HasExtsPredicate {
    fn clone(&self) -> (r: Self)
        ensures
            r@ == self@,
    {
        HasExtsPredicate { ext_list: self.ext_list.clone(), case_sensitive: self.case_sensitive }
    }
}

impl Default for HasExtsPredicate {
    /// The test with an empty list, which no file passes.
    fn default() -> (r: Self)
        ensures
            r@ == (PredicateModel::HasExts { ext_list: Seq::empty(), case_sensitive: false }),
    {
        HasExtsPredicate { ext_list: String::new(), case_sensitive: false }
    }
}

impl PartialEq for HasExtsPredicate {
    fn eq(&self, other: &Self) -> (r: bool) {
        self.ext_list == other.ext_list && self.case_sensitive == other.case_sensitive
    }
}

impl Eq for HasExtsPredicate {

}

impl vstd::std_specs::cmp::PartialEqSpecImpl for HasExtsPredicate {
    open spec fn obeys_eq_spec() -> bool {
        true
    }

    open spec fn eq_spec(&self, other: &Self) -> bool {
        self@ == other@
    }
}

impl Clone for Predicate {
    fn clone(&self) -> (r: Self)
        ensures
            r@ == self@,
    {
        match self {
            Predicate::BeginsWith(fragment) => Predicate::BeginsWith(fragment.clone()),
            Predicate::HasExts(p) => Predicate::HasExts(p.clone()),
        }
    }
}

impl PartialEq for Predicate {
    fn eq(&self, other: &Self) -> (r: bool) {
        match (self, other) {
            (Predicate::BeginsWith(a), Predicate::BeginsWith(b)) => *a == *b,
            (Predicate::HasExts(a), Predicate::HasExts(b)) => *a == *b,
            _ => false,
        }
    }
}

impl Eq for Predicate {

}

impl vstd::std_specs::cmp::PartialEqSpecImpl for Predicate {
    open spec fn obeys_eq_spec() -> bool {
        true
    }

    open spec fn eq_spec(&self, other: &Self) -> bool {
        self@ == other@
    }
}

/// The shapes in which a stored extension test comes.
#[derive(Debug)]
pub enum StoredHasExts {
    /// The older shape: the list alone.
    V1(String),
    /// The present shape: the list and the case flag.
    V2(HasExtsPredicate),
}

impl HasExtsPredicate {
    /// The extension test that a stored shape stands for. The older shape,
    /// which had no case flag, compares without regard to case.
    pub fn upgrade(stored: StoredHasExts) -> (r: Self)
        ensures
            r@ == match stored {
                StoredHasExts::V1(ext_list) => (PredicateModel::HasExts {
                    ext_list: ext_list@,
                    case_sensitive: false,
                }),
                StoredHasExts::V2(p) => p@,
            },
    {
        match stored {
            StoredHasExts::V1(ext_list) => HasExtsPredicate { ext_list, case_sensitive: false },
            StoredHasExts::V2(p) => p,
        }
    }
}

/// An extension list without a word lets no path pass.
pub proof fn lemma_blank_ext_list_matches_nothing(exts: Seq<char>, path: Seq<char>, sensitive: bool)
    requires
        is_blank(exts),
    ensures
        !matches_exts_spec(exts, path, sensitive),
{
    lemma_no_pieces_iff_void(exts, Separator::Whitespace);
}

/// A group without predicates holds of no path.
pub proof fn lemma_no_predicates_match_nothing(path: Seq<char>)
    ensures
        !matches_any_spec(Seq::empty(), path),
{
}

/// A path without an extension passes no extension test, and a path without
/// a file name passes no test at all.
pub proof fn lemma_needs_name_and_extension(p: PredicateModel, path: Seq<char>)
    ensures
        file_name_spec(path) is None ==> !matches_spec(p, path),
        p is HasExts && extension_spec(path) is None ==> !matches_spec(p, path),
{
}

} // verus!
