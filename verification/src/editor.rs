//! The window in which the table of custom demuxers is edited: which rule and
//! which predicate are selected, and the one text field that is being typed
//! into. The window draws nothing; it says how each event changes its state
//! and the table.

use crate::command::{
    lemma_parse_fails_iff_blank, lemma_parse_serialize_round_trip, parse_error_text, parse_spec,
    reads_back, serialize_spec, Command,
};
use crate::demuxers::{empty_entry, swapped, CustomDemuxerEntry, DemuxerTable, EntryModel};
use crate::predicate::{HasExtsPredicate, Predicate, PredicateKind, PredicateModel};
use crate::text::{
    is_blank, is_word, join_words, joined, lemma_pieces_of_joined, split_whitespace, tokens,
    Separator,
};
use vstd::prelude::*;
use vstd::string::*;

verus! {

/// The two pages of the window.
#[derive(Debug, Clone, Copy, PartialEq, Eq, Structural)]
pub enum CustomDemuxTab {
    Commands,
    Predicates,
}

/// The two text fields that are edited through a buffer.
#[derive(Debug, Clone, Copy, PartialEq, Eq, Structural)]
pub enum EditTargetWhich {
    /// The command that reads the file.
    Command,
    /// The further arguments for the player.
    MpvArgs,
}

/// The field that is being typed into.
#[derive(Debug, Clone, Copy, PartialEq, Eq, Structural)]
pub struct EditTarget {
    /// The position of the rule in the table.
    pub index: usize,
    /// The field of that rule.
    pub which: EditTargetWhich,
}

/// The state of the window.
#[derive(Debug)]
pub struct CustomDemuxersWindow {
    /// Whether the window is shown.
    pub open: bool,
    /// What has been typed into the field that is being edited.
    pub edit_buffer: String,
    /// The field that is being edited, if any.
    pub edit_target: Option<EditTarget>,
    /// The message of the last command that could not be read; empty if none.
    pub error_label: String,
    /// The position of the selected rule.
    pub selected_idx: usize,
    /// The page that is shown.
    pub tab: CustomDemuxTab,
    /// The position of the selected predicate within the selected rule.
    pub selected_pred_idx: usize,
}

/// What the state of the window is, as mathematics.
pub struct WindowModel {
    pub open: bool,
    pub edit_buffer: Seq<char>,
    pub edit_target: Option<EditTarget>,
    pub error_label: Seq<char>,
    pub selected_idx: usize,
    pub tab: CustomDemuxTab,
    pub selected_pred_idx: usize,
}

impl View for CustomDemuxersWindow {
    type V = WindowModel;

    open spec fn view(&self) -> WindowModel {
        WindowModel {
            open: self.open,
            edit_buffer: self.edit_buffer@,
            edit_target: self.edit_target,
            error_label: self.error_label@,
            selected_idx: self.selected_idx,
            tab: self.tab,
            selected_pred_idx: self.selected_pred_idx,
        }
    }
}

/// The state in which the window starts: closed, nothing being edited, the
/// first rule and its first predicate selected, the commands shown.
pub open spec fn initial_window() -> WindowModel {
    WindowModel {
        open: false,
        edit_buffer: Seq::empty(),
        edit_target: None,
        error_label: Seq::empty(),
        selected_idx: 0,
        tab: CustomDemuxTab::Commands,
        selected_pred_idx: 0,
    }
}

impl Default for CustomDemuxersWindow {
    fn default() -> (r: Self)
        ensures
            r@ == initial_window(),
    {
        CustomDemuxersWindow {
            open: false,
            edit_buffer: String::new(),
            edit_target: None,
            error_label: String::new(),
            selected_idx: 0,
            tab: CustomDemuxTab::Commands,
            selected_pred_idx: 0,
        }
    }
}

/// The text that stands for the field `which` of the rule `e` while it is
/// not being edited.
pub open spec fn field_text(e: EntryModel, which: EditTargetWhich) -> Seq<char> {
    match which {
        EditTargetWhich::Command => serialize_spec(e.reader_cmd),
        EditTargetWhich::MpvArgs => joined(e.extra_mpv_args, Separator::Whitespace),
    }
}

/// Whether the field `which` of the rule at `index` is being edited.
pub open spec fn is_editing(w: WindowModel, index: usize, which: EditTargetWhich) -> bool {
    w.edit_target == Some(EditTarget { index, which })
}

/// The text that the field `which` of the rule at `index` shows: the buffer
/// while the field is being edited, else the text of the rule's value.
/// Where there is no such rule and nothing is being edited, it shows nothing.
pub open spec fn shown_text(
    w: WindowModel,
    table: Seq<EntryModel>,
    index: usize,
    which: EditTargetWhich,
) -> Seq<char> {
    if is_editing(w, index, which) {
        w.edit_buffer
    } else if index < table.len() {
        field_text(table[index as int], which)
    } else {
        Seq::empty()
    }
}

/// The window after the field `which` of the rule at `index` has gained the
/// focus. A field that is not being edited takes over the buffer, filled
/// with the text of its value; what another field had in the buffer is lost.
pub open spec fn after_focus_gained(
    w: WindowModel,
    table: Seq<EntryModel>,
    index: usize,
    which: EditTargetWhich,
) -> WindowModel {
    if index >= table.len() || is_editing(w, index, which) {
        w
    } else {
        WindowModel {
            edit_buffer: field_text(table[index as int], which),
            edit_target: Some(EditTarget { index, which }),
            ..w
        }
    }
}

/// The window after the text of the field that is being edited has changed
/// to `text`.
pub open spec fn after_buffer_edited(w: WindowModel, text: Seq<char>) -> WindowModel {
    if w.edit_target is Some {
        WindowModel { edit_buffer: text, ..w }
    } else {
        w
    }
}

/// The window after the field that is being edited has lost the focus: no
/// field is being edited and the buffer is empty. The message is cleared
/// where a command was read, and set where it could not be read.
pub open spec fn window_after_focus_lost(w: WindowModel, table: Seq<EntryModel>) -> WindowModel {
    match w.edit_target {
        None => w,
        Some(t) => {
            let done = WindowModel { edit_buffer: Seq::empty(), edit_target: None, ..w };
            if t.index < table.len() && t.which == EditTargetWhich::Command {
                match parse_spec(w.edit_buffer) {
                    Some(_) => WindowModel { error_label: Seq::empty(), ..done },
                    None => WindowModel { error_label: parse_error_text("command"@), ..done },
                }
            } else {
                done
            }
        },
    }
}

/// The table after the field that is being edited has lost the focus. A
/// command is taken over where the buffer can be read as one, and kept as it
/// was where not; the further arguments become the words of the buffer.
pub open spec fn table_after_focus_lost(w: WindowModel, table: Seq<EntryModel>) -> Seq<EntryModel> {
    match w.edit_target {
        None => table,
        Some(t) => {
            if t.index < table.len() {
                let e = table[t.index as int];
                match t.which {
                    EditTargetWhich::Command => match parse_spec(w.edit_buffer) {
                        Some(c) => table.update(t.index as int, EntryModel { reader_cmd: c, ..e }),
                        None => table,
                    },
                    EditTargetWhich::MpvArgs => table.update(
                        t.index as int,
                        EntryModel { extra_mpv_args: tokens(w.edit_buffer), ..e },
                    ),
                }
            } else {
                table
            }
        },
    }
}

impl CustomDemuxerEntry {
    /// The text that stands for the field `which` of this rule.
    pub fn field_text(&self, which: EditTargetWhich) -> (r: String)
        ensures
            r@ == field_text(self@, which),
    {
        match which {
            EditTargetWhich::Command => {
                match self.reader_cmd.to_string() {
                    Ok(text) => text,
                    Err(_) => String::new(),
                }
            },
            EditTargetWhich::MpvArgs => join_words(&self.extra_mpv_args),
        }
    }
}

impl CustomDemuxersWindow {
    /// Whether the field `which` of the rule at `index` is being edited.
    pub fn is_editing(&self, index: usize, which: EditTargetWhich) -> (r: bool)
        ensures
            r == is_editing(self@, index, which),
    {
        match self.edit_target {
            Some(t) => t.index == index && t.which == which,
            None => false,
        }
    }

    /// The text that the field `which` of the rule at `index` shows.
    pub fn shown_text(&self, table: &DemuxerTable, index: usize, which: EditTargetWhich) -> (r:
        String)
        ensures
            r@ == shown_text(self@, table@, index, which),
    {
        if self.is_editing(index, which) {
            self.edit_buffer.clone()
        } else if index < table.entries.len() {
            table.entries[index].field_text(which)
        } else {
            String::new()
        }
    }

    /// The field `which` of the rule at `index` has gained the focus.
    pub fn focus_gained(&mut self, table: &DemuxerTable, index: usize, which: EditTargetWhich)
        ensures
            final(self)@ == after_focus_gained(old(self)@, table@, index, which),
    {
        if index < table.entries.len() && !self.is_editing(index, which) {
            self.edit_buffer = table.entries[index].field_text(which);
            self.edit_target = Some(EditTarget { index, which });
        }
    }

    /// The text of the field that is being edited has changed to `text`.
    pub fn buffer_edited(&mut self, text: String)
        ensures
            final(self)@ == after_buffer_edited(old(self)@, text@),
    {
        if self.edit_target.is_some() {
            self.edit_buffer = text;
        }
    }
}

impl CustomDemuxersWindow {
    /// The field that is being edited has lost the focus: what the buffer
    /// holds is put into the rule, and the editing ends. A command that cannot
    /// be read leaves the rule as it was and sets the message.
    pub fn focus_lost(&mut self, table: &mut DemuxerTable)
        ensures
            final(self)@ == window_after_focus_lost(old(self)@, old(table)@),
            final(table)@ == table_after_focus_lost(old(self)@, old(table)@),
    {
        let target = match self.edit_target {
            Some(t) => t,
            None => {
                return;
            },
        };
        if target.index < table.entries.len() {
            match target.which {
                EditTargetWhich::Command => {
                    match Command::from_str(self.edit_buffer.as_str()) {
                        Ok(cmd) => {
                            table.entries[target.index].reader_cmd = cmd;
                            self.error_label = String::new();
                        },
                        Err(e) => {
                            self.error_label = e.to_string();
                        },
                    }
                },
                EditTargetWhich::MpvArgs => {
                    table.entries[target.index].extra_mpv_args = split_whitespace(
                        self.edit_buffer.as_str(),
                    );
                },
            }
        }
        self.edit_buffer = String::new();
        self.edit_target = None;
        assert(table@ =~= table_after_focus_lost(old(self)@, old(table)@));
    }
}

/// The buttons in the row of a rule.
#[derive(Debug, Clone, Copy, PartialEq, Eq, Structural)]
pub enum RowButton {
    /// The label of the rule: selects it.
    Select,
    /// Takes the rule out of the table.
    Delete,
    /// Moves the rule one place up, to a higher priority.
    Higher,
    /// Moves the rule one place down, to a lower priority.
    Lower,
    /// Puts a copy of the rule in front of it.
    Clone,
}

/// The table after `button` was pressed in the row at `idx`. A button in a
/// row that does not exist, the way up from the first row and the way down
/// from the last change nothing.
pub open spec fn table_after_row(table: Seq<EntryModel>, idx: usize, button: RowButton) -> Seq<
    EntryModel,
> {
    let i = idx as int;
    match button {
        RowButton::Select => table,
        RowButton::Delete => if i < table.len() {
            table.remove(i)
        } else {
            table
        },
        RowButton::Higher => if 0 < i < table.len() {
            swapped(table, i, i - 1)
        } else {
            table
        },
        RowButton::Lower => if i + 1 < table.len() {
            swapped(table, i, i + 1)
        } else {
            table
        },
        RowButton::Clone => if i < table.len() {
            table.insert(i, table[i])
        } else {
            table
        },
    }
}

/// Where the rule that stood at `k` stands after `button` was pressed in the
/// row at `idx` of a table of `len` rules; nowhere, if the rule was taken out.
/// A position that held no rule stays as it is.
pub open spec fn place_after_row(k: usize, len: nat, idx: usize, button: RowButton) -> Option<
    usize,
> {
    if k >= len || idx >= len {
        Some(k)
    } else {
        match button {
            RowButton::Select => Some(k),
            RowButton::Delete => if k < idx {
                Some(k)
            } else if k == idx {
                None
            } else {
                Some((k - 1) as usize)
            },
            RowButton::Higher => if idx == 0 {
                Some(k)
            } else if k == idx {
                Some((idx - 1) as usize)
            } else if k == idx - 1 {
                Some(idx)
            } else {
                Some(k)
            },
            RowButton::Lower => if idx + 1 >= len {
                Some(k)
            } else if k == idx {
                Some((idx + 1) as usize)
            } else if k == idx + 1 {
                Some(idx)
            } else {
                Some(k)
            },
            RowButton::Clone => if k >= idx {
                Some((k + 1) as usize)
            } else {
                Some(k)
            },
        }
    }
}

/// The window after `button` was pressed in the row at `idx` of a table of
/// `len` rules. The label selects the row. The other buttons move rules, and
/// the selection and the field that is being edited go with their rule. An
/// edit of a rule that is taken out is given up, and the selection then
/// stays at the position, where the next rule comes to stand.
pub open spec fn window_after_row(
    w: WindowModel,
    len: nat,
    idx: usize,
    button: RowButton,
) -> WindowModel {
    match button {
        RowButton::Select => WindowModel { selected_idx: idx, ..w },
        _ => {
            let selected = match place_after_row(w.selected_idx, len, idx, button) {
                Some(p) => p,
                None => w.selected_idx,
            };
            match w.edit_target {
                None => WindowModel { selected_idx: selected, ..w },
                Some(t) => match place_after_row(t.index, len, idx, button) {
                    Some(p) => WindowModel {
                        selected_idx: selected,
                        edit_target: Some(EditTarget { index: p, which: t.which }),
                        ..w
                    },
                    None => WindowModel {
                        selected_idx: selected,
                        edit_target: None,
                        edit_buffer: Seq::empty(),
                        ..w
                    },
                },
            }
        },
    }
}

/// A rule that is not taken out is after the press of a button where
/// `place_after_row` says: positions keep pointing at their rules.
pub proof fn lemma_rows_keep_their_rules(
    table: Seq<EntryModel>,
    k: usize,
    idx: usize,
    button: RowButton,
)
    requires
        k < table.len(),
        table.len() < usize::MAX,
    ensures
        match place_after_row(k, table.len(), idx, button) {
            Some(p) => p < table_after_row(table, idx, button).len() && table_after_row(
                table,
                idx,
                button,
            )[p as int] == table[k as int],
            None => button == RowButton::Delete && k == idx,
        },
{
}

/// The selected rule stays selected whatever button is pressed in whatever
/// row, unless the button selects another rule or takes the rule out.
pub proof fn lemma_selection_follows_its_rule(
    w: WindowModel,
    table: Seq<EntryModel>,
    idx: usize,
    button: RowButton,
)
    requires
        w.selected_idx < table.len(),
        table.len() < usize::MAX,
        button != RowButton::Select,
        !(button == RowButton::Delete && idx == w.selected_idx),
    ensures
        window_after_row(w, table.len(), idx, button).selected_idx < table_after_row(
            table,
            idx,
            button,
        ).len(),
        table_after_row(table, idx, button)[window_after_row(
            w,
            table.len(),
            idx,
            button,
        ).selected_idx as int] == table[w.selected_idx as int],
{
    lemma_rows_keep_their_rules(table, w.selected_idx, idx, button);
}

/// The field that is being edited stays with its rule whatever button is
/// pressed in whatever row; where the rule is taken out, the edit is given
/// up and the buffer emptied.
pub proof fn lemma_edit_follows_its_rule(
    w: WindowModel,
    table: Seq<EntryModel>,
    idx: usize,
    button: RowButton,
)
    requires
        w.edit_target is Some,
        w.edit_target->Some_0.index < table.len(),
        table.len() < usize::MAX,
    ensures
        ({
            let t = w.edit_target->Some_0;
            let after = window_after_row(w, table.len(), idx, button);
            let rules = table_after_row(table, idx, button);
            if button == RowButton::Delete && idx == t.index {
                after.edit_target is None && after.edit_buffer.len() == 0
            } else {
                &&& after.edit_target is Some
                &&& after.edit_target->Some_0.which == t.which
                &&& after.edit_target->Some_0.index < rules.len()
                &&& rules[after.edit_target->Some_0.index as int] == table[t.index as int]
                &&& after.edit_buffer == w.edit_buffer
            }
        }),
{
    lemma_rows_keep_their_rules(table, w.edit_target->Some_0.index, idx, button);
}

/// The predicate that a choice of `kind` puts in place: one of that kind
/// without contents.
pub open spec fn fresh_predicate(kind: PredicateKind) -> PredicateModel {
    match kind {
        PredicateKind::BeginsWith => PredicateModel::BeginsWith(Seq::empty()),
        PredicateKind::HasExts => PredicateModel::HasExts {
            ext_list: Seq::empty(),
            case_sensitive: false,
        },
    }
}

/// A change to the selected predicate of the selected rule.
pub enum PredicateEdit {
    /// Another kind was chosen: the predicate loses its contents.
    Kind(PredicateKind),
    /// The text of the predicate was typed: the beginning of the file name,
    /// or the list of extensions.
    Text(String),
    /// The case box of an extension test was set.
    CaseSensitive(bool),
    /// The predicate was removed.
    Remove,
}

/// What a change to a predicate is, as mathematics.
pub enum PredicateEditModel {
    Kind(PredicateKind),
    Text(Seq<char>),
    CaseSensitive(bool),
    Remove,
}

impl View for PredicateEdit {
    type V = PredicateEditModel;

    open spec fn view(&self) -> PredicateEditModel {
        match self {
            PredicateEdit::Kind(k) => PredicateEditModel::Kind(*k),
            PredicateEdit::Text(t) => PredicateEditModel::Text(t@),
            PredicateEdit::CaseSensitive(b) => PredicateEditModel::CaseSensitive(*b),
            PredicateEdit::Remove => PredicateEditModel::Remove,
        }
    }
}

/// The predicate `p` with the text `t` in it.
pub open spec fn with_text(p: PredicateModel, t: Seq<char>) -> PredicateModel {
    match p {
        PredicateModel::BeginsWith(_) => PredicateModel::BeginsWith(t),
        PredicateModel::HasExts { ext_list, case_sensitive } => PredicateModel::HasExts {
            ext_list: t,
            case_sensitive,
        },
    }
}

/// The predicate `p` with the case box set to `b`; a test on the beginning
/// of the name has no such box and stays as it is.
pub open spec fn with_case(p: PredicateModel, b: bool) -> PredicateModel {
    match p {
        PredicateModel::BeginsWith(_) => p,
        PredicateModel::HasExts { ext_list, case_sensitive } => PredicateModel::HasExts {
            ext_list,
            case_sensitive: b,
        },
    }
}

/// The predicates `ps` after the change `edit` to the one at `i`.
pub open spec fn predicates_after_edit(
    ps: Seq<PredicateModel>,
    i: int,
    edit: PredicateEditModel,
) -> Seq<PredicateModel> {
    if 0 <= i < ps.len() {
        match edit {
            PredicateEditModel::Kind(k) => ps.update(i, fresh_predicate(k)),
            PredicateEditModel::Text(t) => ps.update(i, with_text(ps[i], t)),
            PredicateEditModel::CaseSensitive(b) => ps.update(i, with_case(ps[i], b)),
            PredicateEditModel::Remove => ps.remove(i),
        }
    } else {
        ps
    }
}

/// The table with the predicates of the rule at `idx` replaced by `ps`.
pub open spec fn with_predicates(table: Seq<EntryModel>, idx: usize, ps: Seq<PredicateModel>) -> Seq<
    EntryModel,
> {
    if idx < table.len() {
        table.update(idx as int, EntryModel { predicates: ps, ..table[idx as int] })
    } else {
        table
    }
}

/// The table with the name of the rule at `idx` replaced by `name`.
pub open spec fn with_name(table: Seq<EntryModel>, idx: usize, name: Seq<char>) -> Seq<EntryModel> {
    if idx < table.len() {
        table.update(idx as int, EntryModel { name, ..table[idx as int] })
    } else {
        table
    }
}

impl CustomDemuxersWindow {
    /// A button was pressed in the row of the rule at `idx`.
    pub fn row_clicked(&mut self, table: &mut DemuxerTable, idx: usize, button: RowButton)
        ensures
            final(self)@ == window_after_row(old(self)@, old(table)@.len(), idx, button),
            final(table)@ == table_after_row(old(table)@, idx, button),
    {
        let len = table.len();
        match button {
            RowButton::Select => {
                self.selected_idx = idx;
                return;
            },
            RowButton::Delete => {
                let _ = table.remove(idx);
            },
            RowButton::Higher => {
                if idx > 0 {
                    table.swap_priority(idx, idx - 1);
                }
            },
            RowButton::Lower => {
                if idx < usize::MAX {
                    table.swap_priority(idx, idx + 1);
                }
            },
            RowButton::Clone => {
                let _ = table.clone_entry(idx);
            },
        }
        assert(table@.len() == table.entries.len());
        if let Some(p) = place_of(self.selected_idx, len, table.len(), idx, button) {
            self.selected_idx = p;
        }
        if let Some(t) = self.edit_target {
            match place_of(t.index, len, table.len(), idx, button) {
                Some(p) => {
                    self.edit_target = Some(EditTarget { index: p, which: t.which });
                },
                None => {
                    self.edit_target = None;
                    self.edit_buffer = String::new();
                },
            }
        }
    }

    /// The button that adds a rule was pressed: an empty rule goes last.
    pub fn add_clicked(&self, table: &mut DemuxerTable)
        ensures
            final(table)@ == old(table)@.push(empty_entry()),
    {
        let _ = table.add();
    }

    /// The rule that is selected, if the selection points at one.
    pub fn selected<'a>(&self, table: &'a DemuxerTable) -> (r: Option<&'a CustomDemuxerEntry>)
        ensures
            self.selected_idx < table@.len() ==> r == Some(&table.entries[self.selected_idx as int]),
            self.selected_idx >= table@.len() ==> r is None,
    {
        if self.selected_idx < table.entries.len() {
            Some(&table.entries[self.selected_idx])
        } else {
            None
        }
    }

    /// One of the two pages was chosen.
    pub fn tab_chosen(&mut self, tab: CustomDemuxTab)
        ensures
            final(self)@ == (WindowModel { tab, ..old(self)@ }),
    {
        self.tab = tab;
    }

    /// The name of the selected rule was typed.
    pub fn name_edited(&self, table: &mut DemuxerTable, name: String)
        ensures
            final(table)@ == with_name(old(table)@, self.selected_idx, name@),
    {
        if self.selected_idx < table.entries.len() {
            table.entries[self.selected_idx].name = name;
            assert(table@ =~= with_name(old(table)@, self.selected_idx, name@));
        }
    }

    /// The predicate at `idx` of the selected rule was chosen.
    pub fn predicate_selected(&mut self, idx: usize)
        ensures
            final(self)@ == (WindowModel { selected_pred_idx: idx, ..old(self)@ }),
    {
        self.selected_pred_idx = idx;
    }

    /// The button that adds a predicate was pressed: an extension test with
    /// an empty list goes last among the predicates of the selected rule.
    pub fn predicate_added(&self, table: &mut DemuxerTable)
        ensures
            self.selected_idx < old(table)@.len() ==> final(table)@ == with_predicates(
                old(table)@,
                self.selected_idx,
                old(table)@[self.selected_idx as int].predicates.push(
                    fresh_predicate(PredicateKind::HasExts),
                ),
            ),
            self.selected_idx >= old(table)@.len() ==> final(table)@ == old(table)@,
    {
        if self.selected_idx < table.entries.len() {
            table.entries[self.selected_idx].predicates.push(
                Predicate::HasExts(HasExtsPredicate::default()),
            );
            assert(table@[self.selected_idx as int].predicates =~= old(
                table,
            )@[self.selected_idx as int].predicates.push(fresh_predicate(PredicateKind::HasExts)));
            assert(table@ =~= with_predicates(
                old(table)@,
                self.selected_idx,
                old(table)@[self.selected_idx as int].predicates.push(
                    fresh_predicate(PredicateKind::HasExts),
                ),
            ));
        }
    }
}

/// The table after the change `edit` to the selected predicate of the
/// selected rule. Where the selection points at no rule or at no predicate,
/// nothing changes.
pub open spec fn table_after_predicate_edit(
    w: WindowModel,
    table: Seq<EntryModel>,
    edit: PredicateEditModel,
) -> Seq<EntryModel> {
    if w.selected_idx < table.len() {
        with_predicates(
            table,
            w.selected_idx,
            predicates_after_edit(
                table[w.selected_idx as int].predicates,
                w.selected_pred_idx as int,
                edit,
            ),
        )
    } else {
        table
    }
}

impl CustomDemuxersWindow {
    /// The selected predicate of the selected rule was changed.
    pub fn predicate_edited(&self, table: &mut DemuxerTable, edit: PredicateEdit)
        ensures
            final(table)@ == table_after_predicate_edit(self@, old(table)@, edit@),
    {
        let sel = self.selected_idx;
        let pi = self.selected_pred_idx;
        if sel >= table.entries.len() {
            return;
        }
        let ghost before = old(table)@[sel as int].predicates;
        if pi >= table.entries[sel].predicates.len() {
            assert(table@ =~= with_predicates(old(table)@, sel, before));
            return;
        }
        assert(before[pi as int] == table.entries[sel as int].predicates[pi as int]@);
        match edit {
            PredicateEdit::Remove => {
                let _ = table.entries[sel].predicates.remove(pi);
            },
            PredicateEdit::Kind(kind) => {
                table.entries[sel].predicates[pi] = new_predicate(kind);
            },
            PredicateEdit::Text(text) => {
                let changed = match &table.entries[sel].predicates[pi] {
                    Predicate::BeginsWith(_) => Predicate::BeginsWith(text),
                    Predicate::HasExts(h) => Predicate::HasExts(
                        HasExtsPredicate { ext_list: text, case_sensitive: h.case_sensitive },
                    ),
                };
                table.entries[sel].predicates[pi] = changed;
            },
            PredicateEdit::CaseSensitive(b) => {
                let changed = match &table.entries[sel].predicates[pi] {
                    Predicate::BeginsWith(fragment) => Predicate::BeginsWith(fragment.clone()),
                    Predicate::HasExts(h) => Predicate::HasExts(
                        HasExtsPredicate { ext_list: h.ext_list.clone(), case_sensitive: b },
                    ),
                };
                table.entries[sel].predicates[pi] = changed;
            },
        }
        proof {
            let after = predicates_after_edit(before, pi as int, edit@);
            assert(table@[sel as int].predicates =~= after);
            assert(table@ =~= with_predicates(old(table)@, sel, after));
        }
    }
}

/// Where the rule that stood at `k` stands after `button` was pressed in the
/// row at `idx`, in a table that held `len` rules before and holds `now`
/// rules after.
fn place_of(k: usize, len: usize, now: usize, idx: usize, button: RowButton) -> (r: Option<usize>)
    requires
        button == RowButton::Clone && idx < len ==> now == len + 1,
    ensures
        r == place_after_row(k, len as nat, idx, button),
{
    if k >= len || idx >= len {
        return Some(k);
    }
    match button {
        RowButton::Select => Some(k),
        RowButton::Delete => {
            if k < idx {
                Some(k)
            } else if k == idx {
                None
            } else {
                Some(k - 1)
            }
        },
        RowButton::Higher => {
            if idx == 0 {
                Some(k)
            } else if k == idx {
                Some(idx - 1)
            } else if k == idx - 1 {
                Some(idx)
            } else {
                Some(k)
            }
        },
        RowButton::Lower => {
            if idx + 1 >= len {
                Some(k)
            } else if k == idx {
                Some(idx + 1)
            } else if k == idx + 1 {
                Some(idx)
            } else {
                Some(k)
            }
        },
        RowButton::Clone => {
            if k >= idx {
                Some(k + 1)
            } else {
                Some(k)
            }
        },
    }
}

/// The predicate without contents of the given kind.
pub fn new_predicate(kind: PredicateKind) -> (p: Predicate)
    ensures
        p@ == fresh_predicate(kind),
{
    match kind {
        PredicateKind::BeginsWith => Predicate::BeginsWith(String::new()),
        PredicateKind::HasExts => Predicate::HasExts(HasExtsPredicate::default()),
    }
}

/// At most one field is being edited: once a field has gained the focus,
/// it is the only one, and what the buffer held for another is gone.
pub proof fn lemma_one_field_at_a_time(
    w: WindowModel,
    table: Seq<EntryModel>,
    index: usize,
    which: EditTargetWhich,
    other_index: usize,
    other_which: EditTargetWhich,
)
    requires
        index < table.len(),
    ensures
        is_editing(after_focus_gained(w, table, index, which), index, which),
        is_editing(after_focus_gained(w, table, index, which), other_index, other_which) ==> (
        other_index == index && other_which == which),
        !is_editing(w, index, which) ==> after_focus_gained(w, table, index, which).edit_buffer
            == field_text(table[index as int], which),
{
}

/// Losing the focus always ends the editing and empties the buffer, and
/// changes no rule but the one that was being edited.
pub proof fn lemma_focus_lost_ends_editing(w: WindowModel, table: Seq<EntryModel>)
    requires
        w.edit_target is Some,
    ensures
        window_after_focus_lost(w, table).edit_target is None,
        window_after_focus_lost(w, table).edit_buffer.len() == 0,
        table_after_focus_lost(w, table).len() == table.len(),
        forall|k: int|
            0 <= k < table.len() && k != w.edit_target->Some_0.index ==> table_after_focus_lost(
                w,
                table,
            )[k] == table[k],
{
}

/// A buffer without a word is no command: the rule keeps the command that it
/// had, and the message says what was missing.
pub proof fn lemma_failed_command_is_kept(w: WindowModel, table: Seq<EntryModel>, index: usize)
    requires
        index < table.len(),
        is_editing(w, index, EditTargetWhich::Command),
        is_blank(w.edit_buffer),
    ensures
        table_after_focus_lost(w, table) == table,
        window_after_focus_lost(w, table).error_label == parse_error_text("command"@),
        window_after_focus_lost(w, table).edit_buffer.len() == 0,
        window_after_focus_lost(w, table).edit_target is None,
{
    lemma_parse_fails_iff_blank(w.edit_buffer);
}

/// A buffer with a word in it is always taken over as the command, and the
/// message is cleared.
pub proof fn lemma_command_is_committed(w: WindowModel, table: Seq<EntryModel>, index: usize)
    requires
        index < table.len(),
        is_editing(w, index, EditTargetWhich::Command),
        !is_blank(w.edit_buffer),
    ensures
        parse_spec(w.edit_buffer) is Some,
        table_after_focus_lost(w, table)[index as int].reader_cmd == parse_spec(
            w.edit_buffer,
        )->Some_0,
        window_after_focus_lost(w, table).error_label.len() == 0,
{
    lemma_parse_fails_iff_blank(w.edit_buffer);
}

/// The further arguments are always taken over: they become the words of
/// the buffer, and the message stays as it was.
pub proof fn lemma_args_are_committed(w: WindowModel, table: Seq<EntryModel>, index: usize)
    requires
        index < table.len(),
        is_editing(w, index, EditTargetWhich::MpvArgs),
    ensures
        table_after_focus_lost(w, table)[index as int].extra_mpv_args == tokens(w.edit_buffer),
        window_after_focus_lost(w, table).error_label == w.error_label,
{
}

/// A field that gains and loses the focus with nothing typed keeps its
/// value, where the value reads back as itself: a command whose name and
/// literal arguments are single words other than the placeholder, or
/// further arguments that are single words.
pub proof fn lemma_untouched_edit_keeps_value(
    w: WindowModel,
    table: Seq<EntryModel>,
    index: usize,
    which: EditTargetWhich,
)
    requires
        index < table.len(),
        !is_editing(w, index, which),
        which == EditTargetWhich::Command ==> reads_back(table[index as int].reader_cmd),
        which == EditTargetWhich::MpvArgs ==> forall|k: int|
            0 <= k < table[index as int].extra_mpv_args.len() ==> is_word(
                #[trigger] table[index as int].extra_mpv_args[k],
            ),
    ensures
        table_after_focus_lost(after_focus_gained(w, table, index, which), table) == table,
{
    let e = table[index as int];
    let editing = after_focus_gained(w, table, index, which);
    match which {
        EditTargetWhich::Command => {
            lemma_parse_serialize_round_trip(e.reader_cmd);
        },
        EditTargetWhich::MpvArgs => {
            lemma_pieces_of_joined(e.extra_mpv_args, Separator::Whitespace);
        },
    }
    assert(table_after_focus_lost(editing, table) =~= table);
}

} // verus!
