use mpvfrog::command::{ArgType, Command};
use mpvfrog::config::default_volume;
use mpvfrog::console::{ConsoleAction, MpvConsoleWindow};
use mpvfrog::demuxers::{CustomDemuxerEntry, DemuxerTable};
use mpvfrog::editor::{
    new_predicate, CustomDemuxTab, CustomDemuxersWindow, EditTarget, EditTargetWhich,
    PredicateEdit, RowButton,
};
use mpvfrog::predicate::{HasExtsPredicate, Predicate, PredicateKind};

fn table() -> DemuxerTable {
    let mut t = DemuxerTable::new();
    for name in ["a", "b", "c"] {
        let mut e = CustomDemuxerEntry::default();
        e.name = name.to_string();
        e.reader_cmd = Command::from_str("reader --in {}").unwrap();
        e.extra_mpv_args = vec!["--vo=null".to_string(), "--loop".to_string()];
        t.entries.push(e);
    }
    t
}

fn names(t: &DemuxerTable) -> Vec<String> {
    t.entries.iter().map(|e| e.name.clone()).collect()
}

#[test]
fn window_starts_viewing() {
    let w = CustomDemuxersWindow::default();
    assert!(!w.open);
    assert_eq!(w.edit_buffer, "");
    assert!(w.edit_target.is_none());
    assert_eq!(w.error_label, "");
    assert_eq!(w.selected_idx, 0);
    assert_eq!(w.tab, CustomDemuxTab::Commands);
    assert_eq!(w.selected_pred_idx, 0);
}

#[test]
fn viewing_shows_the_serialized_value() {
    let w = CustomDemuxersWindow::default();
    let t = table();
    assert_eq!(w.shown_text(&t, 1, EditTargetWhich::Command), "reader --in {} ");
    assert_eq!(w.shown_text(&t, 1, EditTargetWhich::MpvArgs), "--vo=null --loop");
    assert_eq!(w.shown_text(&t, 3, EditTargetWhich::Command), "");
    assert_eq!(CustomDemuxerEntry::default().field_text(EditTargetWhich::MpvArgs), "");
    assert_eq!(CustomDemuxerEntry::default().field_text(EditTargetWhich::Command), " ");
}

#[test]
fn focus_gain_seeds_the_buffer() {
    let mut w = CustomDemuxersWindow::default();
    let t = table();
    w.focus_gained(&t, 2, EditTargetWhich::Command);
    assert_eq!(w.edit_target, Some(EditTarget { index: 2, which: EditTargetWhich::Command }));
    assert_eq!(w.edit_buffer, "reader --in {} ");
    assert!(w.is_editing(2, EditTargetWhich::Command));
    assert!(!w.is_editing(2, EditTargetWhich::MpvArgs));
    assert!(!w.is_editing(1, EditTargetWhich::Command));
    w.buffer_edited("other {}".to_string());
    assert_eq!(w.shown_text(&t, 2, EditTargetWhich::Command), "other {}");
    assert_eq!(w.shown_text(&t, 1, EditTargetWhich::Command), "reader --in {} ");
    assert_eq!(t.entries[2].reader_cmd.to_string().unwrap(), "reader --in {} ");
}

#[test]
fn focus_gain_on_a_missing_rule_does_nothing() {
    let mut w = CustomDemuxersWindow::default();
    w.focus_gained(&table(), 3, EditTargetWhich::Command);
    assert!(w.edit_target.is_none());
    assert_eq!(w.edit_buffer, "");
}

#[test]
fn focus_gain_while_editing_the_same_field_keeps_the_buffer() {
    let mut w = CustomDemuxersWindow::default();
    let t = table();
    w.focus_gained(&t, 0, EditTargetWhich::MpvArgs);
    w.buffer_edited("typed".to_string());
    w.focus_gained(&t, 0, EditTargetWhich::MpvArgs);
    assert_eq!(w.edit_buffer, "typed");
}

#[test]
fn new_edit_abandons_the_other() {
    let mut w = CustomDemuxersWindow::default();
    let mut t = table();
    w.focus_gained(&t, 0, EditTargetWhich::Command);
    w.buffer_edited("lost {}".to_string());
    w.focus_gained(&t, 1, EditTargetWhich::MpvArgs);
    assert_eq!(w.edit_target, Some(EditTarget { index: 1, which: EditTargetWhich::MpvArgs }));
    assert_eq!(w.edit_buffer, "--vo=null --loop");
    w.focus_lost(&mut t);
    assert_eq!(t.entries[0].reader_cmd.to_string().unwrap(), "reader --in {} ");
}

#[test]
fn command_commit_on_success() {
    let mut w = CustomDemuxersWindow::default();
    let mut t = table();
    w.error_label = "old".to_string();
    w.focus_gained(&t, 1, EditTargetWhich::Command);
    w.buffer_edited("  timidity   {}  -Ow ".to_string());
    w.focus_lost(&mut t);
    let cmd = &t.entries[1].reader_cmd;
    assert_eq!(cmd.name, "timidity");
    assert!(matches!(&cmd.args[0], ArgType::SongPath));
    assert!(matches!(&cmd.args[1], ArgType::Custom(s) if s == "-Ow"));
    assert_eq!(w.error_label, "");
    assert_eq!(w.edit_buffer, "");
    assert!(w.edit_target.is_none());
    assert_eq!(t.entries[0].reader_cmd.name, "reader");
    assert_eq!(t.entries[2].reader_cmd.name, "reader");
}

#[test]
fn command_parse_failure_keeps_the_old_value() {
    let mut w = CustomDemuxersWindow::default();
    let mut t = table();
    w.focus_gained(&t, 1, EditTargetWhich::Command);
    w.buffer_edited("   ".to_string());
    w.focus_lost(&mut t);
    assert_eq!(t.entries[1].reader_cmd.to_string().unwrap(), "reader --in {} ");
    assert_eq!(w.error_label, "parse error: Expected command, but reached end.");
    assert_eq!(w.edit_buffer, "");
    assert!(w.edit_target.is_none());
}

#[test]
fn extra_args_always_commit() {
    let mut w = CustomDemuxersWindow::default();
    let mut t = table();
    w.error_label = "kept".to_string();
    w.focus_gained(&t, 0, EditTargetWhich::MpvArgs);
    w.buffer_edited(" --a\t--b=1  c ".to_string());
    w.focus_lost(&mut t);
    assert_eq!(t.entries[0].extra_mpv_args, vec!["--a", "--b=1", "c"]);
    assert_eq!(w.error_label, "kept");
    w.focus_gained(&t, 0, EditTargetWhich::MpvArgs);
    w.buffer_edited("".to_string());
    w.focus_lost(&mut t);
    assert!(t.entries[0].extra_mpv_args.is_empty());
    assert!(w.edit_target.is_none());
}

#[test]
fn focus_lost_without_edit_changes_nothing() {
    let mut w = CustomDemuxersWindow::default();
    let mut t = table();
    w.edit_buffer = "stray".to_string();
    w.focus_lost(&mut t);
    assert_eq!(w.edit_buffer, "stray");
    assert_eq!(t.entries[0].reader_cmd.to_string().unwrap(), "reader --in {} ");
}

#[test]
fn focus_lost_after_the_rule_is_gone_drops_the_edit() {
    let mut w = CustomDemuxersWindow::default();
    let mut t = table();
    w.focus_gained(&t, 2, EditTargetWhich::Command);
    w.buffer_edited("x".to_string());
    w.row_clicked(&mut t, 2, RowButton::Delete);
    w.focus_lost(&mut t);
    assert!(w.edit_target.is_none());
    assert_eq!(w.edit_buffer, "");
    assert_eq!(names(&t), vec!["a", "b"]);
    assert_eq!(t.entries[1].reader_cmd.name, "reader");
}

#[test]
fn untouched_edit_keeps_the_value() {
    let mut w = CustomDemuxersWindow::default();
    let mut t = table();
    w.focus_gained(&t, 0, EditTargetWhich::Command);
    w.focus_lost(&mut t);
    w.focus_gained(&t, 0, EditTargetWhich::MpvArgs);
    w.focus_lost(&mut t);
    assert_eq!(t.entries[0].reader_cmd.to_string().unwrap(), "reader --in {} ");
    assert_eq!(t.entries[0].extra_mpv_args, vec!["--vo=null", "--loop"]);
}

#[test]
fn buffer_edit_while_viewing_is_ignored() {
    let mut w = CustomDemuxersWindow::default();
    w.buffer_edited("x".to_string());
    assert_eq!(w.edit_buffer, "");
}

#[test]
fn row_buttons() {
    let mut w = CustomDemuxersWindow::default();
    let mut t = table();
    w.row_clicked(&mut t, 2, RowButton::Select);
    assert_eq!(w.selected_idx, 2);
    assert_eq!(w.selected(&t).unwrap().name, "c");
    w.row_clicked(&mut t, 2, RowButton::Higher);
    assert_eq!(names(&t), vec!["a", "c", "b"]);
    w.row_clicked(&mut t, 0, RowButton::Higher);
    assert_eq!(names(&t), vec!["a", "c", "b"]);
    w.row_clicked(&mut t, 0, RowButton::Lower);
    assert_eq!(names(&t), vec!["c", "a", "b"]);
    w.row_clicked(&mut t, 2, RowButton::Lower);
    assert_eq!(names(&t), vec!["c", "a", "b"]);
    w.row_clicked(&mut t, usize::MAX, RowButton::Lower);
    w.row_clicked(&mut t, 3, RowButton::Higher);
    assert_eq!(names(&t), vec!["c", "a", "b"]);
    w.row_clicked(&mut t, 1, RowButton::Clone);
    assert_eq!(names(&t), vec!["c", "a", "a", "b"]);
    w.row_clicked(&mut t, 0, RowButton::Delete);
    assert_eq!(names(&t), vec!["a", "a", "b"]);
    w.row_clicked(&mut t, 9, RowButton::Delete);
    w.row_clicked(&mut t, 9, RowButton::Clone);
    assert_eq!(names(&t), vec!["a", "a", "b"]);
    w.add_clicked(&mut t);
    assert_eq!(names(&t), vec!["a", "a", "b", ""]);
    w.row_clicked(&mut t, 7, RowButton::Select);
    assert!(w.selected(&t).is_none());
}

#[test]
fn selection_follows_its_rule() {
    let mut w = CustomDemuxersWindow::default();
    let mut t = table();
    w.row_clicked(&mut t, 2, RowButton::Select);
    w.row_clicked(&mut t, 2, RowButton::Higher);
    assert_eq!((names(&t), w.selected_idx), (vec!["a".into(), "c".into(), "b".into()], 1));
    w.row_clicked(&mut t, 0, RowButton::Lower);
    assert_eq!((names(&t), w.selected_idx), (vec!["c".into(), "a".into(), "b".into()], 0));
    w.row_clicked(&mut t, 0, RowButton::Clone);
    assert_eq!(names(&t), vec!["c", "c", "a", "b"]);
    assert_eq!(w.selected_idx, 1);
    w.row_clicked(&mut t, 3, RowButton::Clone);
    assert_eq!(w.selected_idx, 1);
    w.row_clicked(&mut t, 0, RowButton::Delete);
    assert_eq!(names(&t), vec!["c", "a", "b", "b"]);
    assert_eq!(w.selected_idx, 0);
    assert_eq!(w.selected(&t).unwrap().name, "c");
    w.row_clicked(&mut t, 2, RowButton::Delete);
    assert_eq!(w.selected_idx, 0);
    w.row_clicked(&mut t, 0, RowButton::Delete);
    assert_eq!(names(&t), vec!["a", "b"]);
    assert_eq!(w.selected_idx, 0);
    assert_eq!(w.selected(&t).unwrap().name, "a");
}

#[test]
fn edit_follows_its_rule() {
    let mut w = CustomDemuxersWindow::default();
    let mut t = table();
    w.focus_gained(&t, 1, EditTargetWhich::MpvArgs);
    w.buffer_edited("--new".to_string());
    w.row_clicked(&mut t, 0, RowButton::Clone);
    assert_eq!(w.edit_target, Some(EditTarget { index: 2, which: EditTargetWhich::MpvArgs }));
    w.row_clicked(&mut t, 2, RowButton::Lower);
    assert_eq!(w.edit_target, Some(EditTarget { index: 3, which: EditTargetWhich::MpvArgs }));
    w.row_clicked(&mut t, 0, RowButton::Delete);
    assert_eq!(names(&t), vec!["a", "c", "b"]);
    assert_eq!(w.edit_target, Some(EditTarget { index: 2, which: EditTargetWhich::MpvArgs }));
    assert_eq!(w.edit_buffer, "--new");
    w.focus_lost(&mut t);
    assert_eq!(t.entries[2].name, "b");
    assert_eq!(t.entries[2].extra_mpv_args, vec!["--new"]);
    assert_eq!(t.entries[1].extra_mpv_args, vec!["--vo=null", "--loop"]);
    w.focus_gained(&t, 1, EditTargetWhich::Command);
    w.buffer_edited("gone {}".to_string());
    w.row_clicked(&mut t, 1, RowButton::Delete);
    assert!(w.edit_target.is_none());
    assert_eq!(w.edit_buffer, "");
    assert_eq!(names(&t), vec!["a", "b"]);
    assert_eq!(t.entries[1].reader_cmd.name, "reader");
}

#[test]
fn name_and_tab() {
    let mut w = CustomDemuxersWindow::default();
    let mut t = table();
    w.row_clicked(&mut t, 1, RowButton::Select);
    w.name_edited(&mut t, "midi".to_string());
    assert_eq!(names(&t), vec!["a", "midi", "c"]);
    w.tab_chosen(CustomDemuxTab::Predicates);
    assert_eq!(w.tab, CustomDemuxTab::Predicates);
    w.row_clicked(&mut t, 5, RowButton::Select);
    w.name_edited(&mut t, "nobody".to_string());
    assert_eq!(names(&t), vec!["a", "midi", "c"]);
}

#[test]
fn predicate_editing() {
    let mut w = CustomDemuxersWindow::default();
    let mut t = table();
    w.row_clicked(&mut t, 1, RowButton::Select);
    w.predicate_added(&mut t);
    w.predicate_added(&mut t);
    assert_eq!(t.entries[1].predicates.len(), 2);
    assert_eq!(t.entries[1].predicates[0], Predicate::HasExts(HasExtsPredicate::default()));
    assert!(t.entries[0].predicates.is_empty());
    w.predicate_edited(&mut t, PredicateEdit::Text("mod xm".to_string()));
    w.predicate_edited(&mut t, PredicateEdit::CaseSensitive(true));
    assert_eq!(
        t.entries[1].predicates[0],
        Predicate::HasExts(HasExtsPredicate { ext_list: "mod xm".to_string(), case_sensitive: true })
    );
    w.predicate_selected(1);
    assert_eq!(w.selected_pred_idx, 1);
    w.predicate_edited(&mut t, PredicateEdit::Kind(PredicateKind::BeginsWith));
    assert_eq!(t.entries[1].predicates[1], Predicate::BeginsWith(String::new()));
    w.predicate_edited(&mut t, PredicateEdit::Text("mdat.".to_string()));
    w.predicate_edited(&mut t, PredicateEdit::CaseSensitive(true));
    assert_eq!(t.entries[1].predicates[1], Predicate::BeginsWith("mdat.".to_string()));
    assert!(t.resolve("mdat.x").is_some());
    w.predicate_edited(&mut t, PredicateEdit::Kind(PredicateKind::BeginsWith));
    assert_eq!(t.entries[1].predicates[1], Predicate::BeginsWith(String::new()));
    w.predicate_selected(0);
    w.predicate_edited(&mut t, PredicateEdit::Remove);
    assert_eq!(t.entries[1].predicates, vec![Predicate::BeginsWith(String::new())]);
    w.predicate_selected(4);
    w.predicate_edited(&mut t, PredicateEdit::Remove);
    w.predicate_edited(&mut t, PredicateEdit::Text("x".to_string()));
    assert_eq!(t.entries[1].predicates.len(), 1);
    w.row_clicked(&mut t, 8, RowButton::Select);
    w.predicate_added(&mut t);
    w.predicate_edited(&mut t, PredicateEdit::Remove);
    assert_eq!(t.entries[1].predicates.len(), 1);
    assert_eq!(new_predicate(PredicateKind::HasExts), Predicate::HasExts(HasExtsPredicate::default()));
}

#[test]
fn console_commands() {
    let mut c = MpvConsoleWindow::default();
    assert!(!c.open);
    assert!(matches!(c.enter_pressed(), ConsoleAction::Nothing));
    c.cmd_buf = "lavfi".to_string();
    assert!(matches!(c.enter_pressed(), ConsoleAction::Nothing));
    c.cmd_buf = "lavfi [aid1] asplit [ao] [v]".to_string();
    assert!(matches!(c.enter_pressed(), ConsoleAction::SetLavfiComplex(s) if s == "[aid1] asplit [ao] [v]"));
    c.cmd_buf = "lavfi ".to_string();
    assert!(matches!(c.enter_pressed(), ConsoleAction::SetLavfiComplex(s) if s.is_empty()));
    c.cmd_buf = "quit now".to_string();
    let action = c.enter_pressed();
    assert!(matches!(&action, ConsoleAction::Unknown(s) if s == "quit"));
    assert_eq!(action.log_line().unwrap(), "Unknown command: quit");
    c.cmd_buf = " lavfi x".to_string();
    assert!(matches!(c.enter_pressed(), ConsoleAction::Unknown(s) if s.is_empty()));
    c.cmd_buf = "lavfi\tx y".to_string();
    assert!(matches!(c.enter_pressed(), ConsoleAction::Unknown(s) if s == "lavfi\tx"));
    assert!(ConsoleAction::Nothing.log_line().is_none());
    assert_eq!(c.cmd_buf, "lavfi\tx y");
    assert_eq!(MpvConsoleWindow::help(), "Help:\n    lavfi <str> - Set lavfi-complex filter\n");
}

#[test]
fn volume_default() {
    assert_eq!(default_volume(), 50);
}
