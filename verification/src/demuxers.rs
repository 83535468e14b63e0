//! The table of custom demuxers: named rules that pair a group of
//! predicates with the command that plays the files they hold of.

use crate::command::{Command, CommandModel};
use crate::predicate::{
    matches_any_spec, predicate_views, Predicate, PredicateModel, PredicateSliceExt,
};
use crate::text::views;
use vstd::prelude::*;

verus! {

/// One rule of the table.
#[derive(Debug)]
pub struct CustomDemuxerEntry {
    /// The rule applies to a file if any of these holds of it.
    pub predicates: Vec<Predicate>,
    /// The command that reads the file.
    pub reader_cmd: Command,
    /// Further arguments for the player.
    pub extra_mpv_args: Vec<String>,
    /// The label of the rule; may be empty.
    pub name: String,
}

/// What a rule is, as mathematics.
pub struct EntryModel {
    pub predicates: Seq<PredicateModel>,
    pub reader_cmd: CommandModel,
    pub extra_mpv_args: Seq<Seq<char>>,
    pub name: Seq<char>,
}

impl View for CustomDemuxerEntry {
    type V = EntryModel;

    open spec fn view(&self) -> EntryModel {
        EntryModel {
            predicates: predicate_views(self.predicates@),
            reader_cmd: self.reader_cmd@,
            extra_mpv_args: views(self.extra_mpv_args@),
            name: self.name@,
        }
    }
}

/// The rule that `add` appends: no name, no predicates, the empty command,
/// no further arguments.
pub open spec fn empty_entry() -> EntryModel {
    EntryModel {
        predicates: Seq::empty(),
        reader_cmd: CommandModel { name: Seq::empty(), args: Seq::empty() },
        extra_mpv_args: Seq::empty(),
        name: Seq::empty(),
    }
}

/// Whether the rule `e` applies to `path`: one of its predicates holds.
pub open spec fn entry_matches(e: EntryModel, path: Seq<char>) -> bool {
    matches_any_spec(e.predicates, path)
}

/// The text under which a rule with the label `name` is listed.
pub open spec fn label_spec(name: Seq<char>) -> Seq<char> {
    if name.len() == 0 {
        "<unnamed demuxer>"@
    } else {
        name
    }
}

impl Clone for CustomDemuxerEntry {
    fn clone(&self) -> (r: Self)
        ensures
            r@ == self@,
    {
        let mut predicates: Vec<Predicate> = Vec::new();
        let mut i: usize = 0;
        while i < self.predicates.len()
            invariant
                i <= self.predicates.len(),
                predicates.len() == i,
                forall|k: int| 0 <= k < i ==> (#[trigger] predicates[k])@ == self.predicates[k]@,
            decreases self.predicates.len() - i,
        {
            predicates.push(self.predicates[i].clone());
            i += 1;
        }
        let mut extra_mpv_args: Vec<String> = Vec::new();
        let mut j: usize = 0;
        while j < self.extra_mpv_args.len()
            invariant
                j <= self.extra_mpv_args.len(),
                extra_mpv_args.len() == j,
                forall|k: int| 0 <= k < j ==> (#[trigger] extra_mpv_args[k])@ == self.extra_mpv_args[k]@,
            decreases self.extra_mpv_args.len() - j,
        {
            extra_mpv_args.push(self.extra_mpv_args[j].clone());
            j += 1;
        }
        let r = CustomDemuxerEntry {
            predicates,
            reader_cmd: self.reader_cmd.clone(),
            extra_mpv_args,
            name: self.name.clone(),
        };
        assert(r@.predicates =~= self@.predicates);
        assert(r@.extra_mpv_args =~= self@.extra_mpv_args);
        r
    }
}

impl Default for CustomDemuxerEntry {
    fn default() -> (r: Self)
        ensures
            r@ == empty_entry(),
    {
        let r = CustomDemuxerEntry {
            predicates: Vec::new(),
            reader_cmd: Command::default(),
            extra_mpv_args: Vec::new(),
            name: String::new(),
        };
        assert(r@.predicates =~= Seq::<PredicateModel>::empty());
        assert(r@.extra_mpv_args =~= Seq::<Seq<char>>::empty());
        assert(r@.reader_cmd.name =~= Seq::<char>::empty());
        assert(r@.reader_cmd.args =~= Seq::empty());
        assert(r@.name =~= Seq::<char>::empty());
        r
    }
}

impl CustomDemuxerEntry {
    /// Whether this rule applies to `path`.
    pub fn matches(&self, path: &str) -> (r: bool)
        ensures
            r == entry_matches(self@, path@),
    {
        self.predicates.as_slice().find_predicate_match(path)
    }

    /// The text under which this rule is listed: its name, or a stand-in
    /// where it has none.
    pub fn label(&self) -> (r: &str)
        ensures
            r@ == label_spec(self.name@),
    {
        if self.name.as_str().unicode_len() == 0 {
            "<unnamed demuxer>"
        } else {
            self.name.as_str()
        }
    }
}

/// The rules in the order of their priority: the first is consulted first.
#[derive(Debug)]
pub struct DemuxerTable {
    pub entries: Vec<CustomDemuxerEntry>,
}

/// The models of a sequence of rules.
pub open spec fn entry_views(v: Seq<CustomDemuxerEntry>) -> Seq<EntryModel> {
    Seq::new(v.len(), |i: int| v[i]@)
}

impl View for DemuxerTable {
    type V = Seq<EntryModel>;

    open spec fn view(&self) -> Seq<EntryModel> {
        entry_views(self.entries@)
    }
}

/// The position of the first rule that applies to `path`, if any does.
pub open spec fn first_match(rules: Seq<EntryModel>, path: Seq<char>) -> Option<int>
    decreases rules.len(),
{
    if rules.len() == 0 {
        None
    } else {
        match first_match(rules.drop_last(), path) {
            Some(i) => Some(i),
            None => if entry_matches(rules.last(), path) {
                Some(rules.len() - 1)
            } else {
                None
            },
        }
    }
}

/// `first_match` gives the least position of a rule that applies, and gives
/// none exactly when no rule applies.
pub proof fn lemma_first_match_is_least(rules: Seq<EntryModel>, path: Seq<char>)
    ensures
        match first_match(rules, path) {
            Some(i) => {
                &&& 0 <= i < rules.len()
                &&& entry_matches(rules[i], path)
                &&& forall|j: int| 0 <= j < i ==> !entry_matches(#[trigger] rules[j], path)
            },
            None => forall|j: int| 0 <= j < rules.len() ==> !entry_matches(#[trigger] rules[j], path),
        },
    decreases rules.len(),
{
    if rules.len() > 0 {
        let init = rules.drop_last();
        lemma_first_match_is_least(init, path);
        assert forall|j: int| 0 <= j < init.len() implies init[j] == rules[j] by {}
        match first_match(init, path) {
            Some(i) => {
                assert(init[i] == rules[i]);
                assert forall|j: int| 0 <= j < i implies !entry_matches(#[trigger] rules[j], path) by {
                    assert(init[j] == rules[j]);
                }
            },
            None => {
                assert forall|j: int| 0 <= j < rules.len() - 1 implies !entry_matches(
                    #[trigger] rules[j],
                    path,
                ) by {
                    assert(init[j] == rules[j]);
                }
            },
        }
    }
}

/// Of two rules that both apply, the one that stands first is chosen.
pub proof fn lemma_earlier_rule_wins(rules: Seq<EntryModel>, path: Seq<char>, a: int, b: int)
    requires
        0 <= a < b < rules.len(),
        entry_matches(rules[a], path),
    ensures
        first_match(rules, path) is Some,
        first_match(rules, path)->Some_0 <= a,
        first_match(rules, path) != Some(b),
{
    lemma_first_match_is_least(rules, path);
}

/// A rule without predicates applies to no file, so it is never chosen.
pub proof fn lemma_empty_rule_never_chosen(rules: Seq<EntryModel>, path: Seq<char>, i: int)
    requires
        0 <= i < rules.len(),
        rules[i].predicates.len() == 0,
    ensures
        !entry_matches(rules[i], path),
        first_match(rules, path) != Some(i),
{
    lemma_first_match_is_least(rules, path);
}

impl DemuxerTable {
    /// The table without rules.
    pub fn new() -> (r: Self)
        ensures
            r@.len() == 0,
    {
        DemuxerTable { entries: Vec::new() }
    }

    /// The number of rules.
    pub fn len(&self) -> (n: usize)
        ensures
            n == self@.len(),
    {
        self.entries.len()
    }

    /// The position of the first rule that applies to `path`.
    pub fn resolve_index(&self, path: &str) -> (r: Option<usize>)
        ensures
            match r {
                Some(i) => i < self@.len() && first_match(self@, path@) == Some(i as int),
                None => first_match(self@, path@) is None,
            },
            match r {
                Some(i) => {
                    &&& entry_matches(self@[i as int], path@)
                    &&& forall|j: int| 0 <= j < i ==> !entry_matches(#[trigger] self@[j], path@)
                },
                None => forall|j: int|
                    0 <= j < self@.len() ==> !entry_matches(#[trigger] self@[j], path@),
            },
    {
        let mut i: usize = 0;
        assert(self@.take(0) =~= Seq::<EntryModel>::empty());
        while i < self.entries.len()
            invariant
                i <= self.entries.len(),
                first_match(self@.take(i as int), path@) is None,
            decreases self.entries.len() - i,
        {
            let ghost next = self@.take(i + 1);
            assert(next.drop_last() =~= self@.take(i as int));
            assert(next.last() == self.entries[i as int]@);
            if self.entries[i].matches(path) {
                proof {
                    lemma_first_match_extends(next, self@, path@);
                    lemma_first_match_is_least(self@, path@);
                }
                return Some(i);
            }
            i += 1;
        }
        proof {
            assert(self@.take(i as int) =~= self@);
            lemma_first_match_is_least(self@, path@);
        }
        None
    }

    /// The first rule that applies to `path`, if any does.
    pub fn resolve(&self, path: &str) -> (r: Option<&CustomDemuxerEntry>)
        ensures
            match first_match(self@, path@) {
                Some(i) => r == Some(&self.entries[i]),
                None => r is None,
            },
            r is Some ==> entry_matches(r->Some_0@, path@),
            r is None ==> forall|j: int|
                0 <= j < self@.len() ==> !entry_matches(#[trigger] self@[j], path@),
    {
        match self.resolve_index(path) {
            Some(i) => Some(&self.entries[i]),
            None => None,
        }
    }
}

/// The sequence `s` with the members at `i` and `j` exchanged.
pub open spec fn swapped<T>(s: Seq<T>, i: int, j: int) -> Seq<T> {
    s.update(i, s[j]).update(j, s[i])
}

impl DemuxerTable {
    /// Appends an empty rule and returns its position.
    pub fn add(&mut self) -> (idx: usize)
        ensures
            idx == old(self)@.len(),
            final(self)@ == old(self)@.push(empty_entry()),
    {
        let idx = self.entries.len();
        self.entries.push(CustomDemuxerEntry::default());
        assert(self@ =~= old(self)@.push(empty_entry()));
        idx
    }

    /// Takes the rule at `index` out of the table and returns it; the rules
    /// behind it move up by one. Where there is no such rule, the table stays
    /// as it is and nothing is returned.
    pub fn remove(&mut self, index: usize) -> (r: Option<CustomDemuxerEntry>)
        ensures
            index < old(self)@.len() ==> r is Some && r->Some_0@ == old(self)@[index as int]
                && final(self)@ == old(self)@.remove(index as int),
            index >= old(self)@.len() ==> r is None && final(self)@ == old(self)@,
    {
        if index < self.entries.len() {
            let e = self.entries.remove(index);
            assert(self@ =~= old(self)@.remove(index as int));
            Some(e)
        } else {
            None
        }
    }

    /// Puts a copy of the rule at `index` in front of it, and says whether
    /// there was such a rule. Where there is none, the table stays as it is.
    pub fn clone_entry(&mut self, index: usize) -> (done: bool)
        ensures
            done == (index < old(self)@.len()),
            done ==> final(self)@ == old(self)@.insert(index as int, old(self)@[index as int]),
            !done ==> final(self)@ == old(self)@,
    {
        if index < self.entries.len() {
            let copy = self.entries[index].clone();
            self.entries.insert(index, copy);
            assert(self@ =~= old(self)@.insert(index as int, old(self)@[index as int]));
            true
        } else {
            false
        }
    }

    /// Exchanges the rules at `i` and `j`. Where one of the two positions
    /// holds no rule, the table stays as it is.
    pub fn swap_priority(&mut self, i: usize, j: usize)
        ensures
            final(self)@ == if i < old(self)@.len() && j < old(self)@.len() {
                swapped(old(self)@, i as int, j as int)
            } else {
                old(self)@
            },
    {
        let n = self.entries.len();
        if i < n && j < n && i != j {
            let lo = if i < j { i } else { j };
            let hi = if i < j { j } else { i };
            let upper = self.entries.remove(hi);
            let lower = self.entries.remove(lo);
            self.entries.insert(lo, upper);
            self.entries.insert(hi, lower);
            assert(self.entries@ =~= swapped(old(self).entries@, i as int, j as int));
            assert(self@ =~= swapped(old(self)@, i as int, j as int));
        } else if i < n && j < n {
            assert(self@ =~= swapped(old(self)@, i as int, j as int));
        }
    }
}

/// After a removal the rule that stood behind the removed one stands in its
/// place, and every later rule stands one position earlier.
pub proof fn lemma_remove_shifts(rules: Seq<EntryModel>, index: int, k: int)
    requires
        0 <= index < rules.len(),
        0 <= k < rules.len() - 1,
    ensures
        rules.remove(index).len() == rules.len() - 1,
        k < index ==> rules.remove(index)[k] == rules[k],
        k >= index ==> rules.remove(index)[k] == rules[k + 1],
{
}

/// After cloning, the copy stands at the position of the rule that was
/// copied, and that rule one position behind it.
pub proof fn lemma_clone_stands_in_front(rules: Seq<EntryModel>, index: int)
    requires
        0 <= index < rules.len(),
    ensures
        rules.insert(index, rules[index]).len() == rules.len() + 1,
        rules.insert(index, rules[index])[index] == rules[index],
        rules.insert(index, rules[index])[index + 1] == rules[index],
{
}

/// Exchanging two rules twice gives the table back.
pub proof fn lemma_swap_twice(rules: Seq<EntryModel>, i: int, j: int)
    requires
        0 <= i < rules.len(),
        0 <= j < rules.len(),
    ensures
        swapped(swapped(rules, i, j), i, j) == rules,
{
    assert(swapped(swapped(rules, i, j), i, j) =~= rules);
}

/// A match found among the first rules is the match of the whole table.
proof fn lemma_first_match_extends(head: Seq<EntryModel>, rules: Seq<EntryModel>, path: Seq<char>)
    requires
        head.len() <= rules.len(),
        head == rules.take(head.len() as int),
        first_match(head, path) is Some,
    ensures
        first_match(rules, path) == first_match(head, path),
    decreases rules.len(),
{
    if head.len() < rules.len() {
        let init = rules.drop_last();
        assert(head =~= init.take(head.len() as int));
        lemma_first_match_extends(head, init, path);
    } else {
        assert(head =~= rules);
    }
}

} // verus!
