use mpvfrog::command::{ArgType, Command};
use mpvfrog::demuxers::{CustomDemuxerEntry, DemuxerTable};
use mpvfrog::predicate::{HasExtsPredicate, Predicate};

fn entry(name: &str, preds: Vec<Predicate>) -> CustomDemuxerEntry {
    CustomDemuxerEntry {
        predicates: preds,
        reader_cmd: Command::from_str("reader {}").unwrap(),
        extra_mpv_args: vec!["--no-video".to_string()],
        name: name.to_string(),
    }
}

fn exts(list: &str) -> Predicate {
    Predicate::HasExts(HasExtsPredicate { ext_list: list.to_string(), case_sensitive: false })
}

fn names(t: &DemuxerTable) -> Vec<String> {
    t.entries.iter().map(|e| e.name.clone()).collect()
}

fn abc() -> DemuxerTable {
    DemuxerTable {
        entries: vec![entry("a", vec![exts("mid")]), entry("b", vec![exts("mod")]), entry("c", vec![])],
    }
}

#[test]
fn resolution_priority() {
    let table = DemuxerTable {
        entries: vec![
            entry("A", vec![exts("mid")]),
            entry("B", vec![Predicate::BeginsWith(String::new())]),
        ],
    };
    assert_eq!(table.resolve("x.mid").unwrap().name, "A");
    assert_eq!(table.resolve_index("x.mid"), Some(0));
    assert_eq!(table.resolve("x.mp3").unwrap().name, "B");
    assert_eq!(table.resolve_index("x.mp3"), Some(1));
}

#[test]
fn resolution_finds_none() {
    let table = abc();
    assert!(table.resolve("x.flac").is_none());
    assert_eq!(table.resolve_index("x.flac"), None);
    assert!(DemuxerTable::new().resolve("x.mid").is_none());
}

#[test]
fn entry_without_predicates_never_matches() {
    let table = DemuxerTable { entries: vec![entry("empty", vec![]), entry("mid", vec![exts("mid")])] };
    assert!(!table.entries[0].matches("x.mid"));
    assert_eq!(table.resolve("x.mid").unwrap().name, "mid");
}

#[test]
fn add_appends_an_empty_entry() {
    let mut table = abc();
    let idx = table.add();
    assert_eq!(idx, 3);
    assert_eq!(table.len(), 4);
    let e = &table.entries[3];
    assert_eq!(e.name, "");
    assert!(e.predicates.is_empty());
    assert_eq!(e.reader_cmd.name, "");
    assert!(e.reader_cmd.args.is_empty());
    assert!(e.extra_mpv_args.is_empty());
    assert_eq!(e.label(), "<unnamed demuxer>");
    assert_eq!(names(&table), vec!["a", "b", "c", ""]);
}

#[test]
fn rule_removal_index_shift() {
    let mut table = abc();
    let removed = table.remove(0).unwrap();
    assert_eq!(removed.name, "a");
    assert_eq!(table.len(), 2);
    assert_eq!(table.entries[0].name, "b");
    assert_eq!(table.entries[1].name, "c");
}

#[test]
fn remove_out_of_range_changes_nothing() {
    let mut table = abc();
    assert!(table.remove(3).is_none());
    assert_eq!(names(&table), vec!["a", "b", "c"]);
}

#[test]
fn clone_stands_in_front_of_its_source() {
    let mut table = abc();
    assert!(table.clone_entry(1));
    assert_eq!(names(&table), vec!["a", "b", "b", "c"]);
    assert_eq!(table.entries[1].predicates, table.entries[2].predicates);
    assert_eq!(table.entries[1].extra_mpv_args, vec!["--no-video"]);
    assert_eq!(table.entries[1].reader_cmd.to_string().unwrap(), "reader {} ");
    table.entries[1].name.push('2');
    assert_eq!(names(&table), vec!["a", "b2", "b", "c"]);
    assert!(!table.clone_entry(4));
    assert_eq!(table.len(), 4);
}

#[test]
fn swap_priority_exchanges_or_does_nothing() {
    let mut table = abc();
    table.swap_priority(0, 1);
    assert_eq!(names(&table), vec!["b", "a", "c"]);
    table.swap_priority(2, 0);
    assert_eq!(names(&table), vec!["c", "a", "b"]);
    table.swap_priority(1, 1);
    assert_eq!(names(&table), vec!["c", "a", "b"]);
    table.swap_priority(0, 3);
    assert_eq!(names(&table), vec!["c", "a", "b"]);
    table.swap_priority(7, 1);
    assert_eq!(names(&table), vec!["c", "a", "b"]);
    let mut empty = DemuxerTable::new();
    empty.swap_priority(0, 0);
    assert_eq!(empty.len(), 0);
}

#[test]
fn swap_changes_which_rule_wins() {
    let mut table = DemuxerTable {
        entries: vec![entry("first", vec![exts("mid")]), entry("second", vec![exts("mid kar")])],
    };
    assert_eq!(table.resolve("x.mid").unwrap().name, "first");
    table.swap_priority(0, 1);
    assert_eq!(table.resolve("x.mid").unwrap().name, "second");
}

#[test]
fn entry_clone_and_label() {
    let e = entry("midi", vec![exts("mid")]);
    let c = e.clone();
    assert_eq!(c.name, "midi");
    assert_eq!(c.predicates, e.predicates);
    assert_eq!(c.extra_mpv_args, e.extra_mpv_args);
    assert_eq!(c.reader_cmd.name, "reader");
    assert!(matches!(c.reader_cmd.args[0], ArgType::SongPath));
    assert_eq!(e.label(), "midi");
}
