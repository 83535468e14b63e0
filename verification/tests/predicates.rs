use mpvfrog::predicate::{
    HasExtsPredicate, Predicate, PredicateKind, PredicateSliceExt, StoredHasExts,
};

fn has_exts(list: &str, case_sensitive: bool) -> Predicate {
    Predicate::HasExts(HasExtsPredicate { ext_list: list.to_string(), case_sensitive })
}

fn begins_with(fragment: &str) -> Predicate {
    Predicate::BeginsWith(fragment.to_string())
}

#[test]
fn extension_matching_case_sensitivity() {
    assert!(has_exts("MP3", false).matches("a.mp3"));
    assert!(!has_exts("MP3", true).matches("a.mp3"));
    assert!(has_exts("mp3 flac", false).matches("a.flac"));
    assert!(has_exts("mp3 flac", true).matches("a.flac"));
    assert!(!has_exts("mp3 flac", true).matches("a.FLAC"));
    assert!(has_exts("mp3 flac", false).matches("dir/sub/a.FLAC"));
}

#[test]
fn extension_matching_needs_an_extension() {
    assert!(!has_exts("mp3", false).matches("mp3"));
    assert!(!has_exts("mp3", false).matches("dir.mp3/file"));
    assert!(!has_exts("mp3", false).matches(".mp3"));
    assert!(!has_exts("mp3", false).matches(""));
}

#[test]
fn empty_extension_list_matches_nothing() {
    assert!(!has_exts("", false).matches("a.mp3"));
    assert!(!has_exts("", true).matches("a."));
    assert!(!has_exts("   ", false).matches("a.mp3"));
    assert!(!has_exts("", false).matches("a"));
}

#[test]
fn extension_matching_whole_token_only() {
    assert!(!has_exts("mp3x", false).matches("a.mp3"));
    assert!(!has_exts("mp", false).matches("a.mp3"));
    assert!(has_exts("  xm\tmod ", false).matches("tune.mod"));
}

#[test]
fn prefix_matching() {
    assert!(begins_with("mdat.").matches("mdat.song1"));
    assert!(!begins_with("mdat.").matches("song.mdat"));
    assert!(begins_with("mdat.").matches("some/dir/mdat.song1"));
    assert!(!begins_with("mdat.").matches("mdat.dir/song1"));
    assert!(begins_with("").matches("anything"));
    assert!(!begins_with("").matches(""));
    assert!(!begins_with("a").matches("a/.."));
}

#[test]
fn static_helpers_agree_with_matches() {
    assert!(Predicate::matches_begin("mdat.", "mdat.song1"));
    assert!(!Predicate::matches_begin("mdat.", "song.mdat"));
    assert!(Predicate::matches_exts("mp3 flac", "a.FLAC", false));
    assert!(!Predicate::matches_exts("mp3 flac", "a.FLAC", true));
}

#[test]
fn any_of_a_group() {
    let group = vec![begins_with("mdat."), has_exts("mod xm", false)];
    assert!(group.as_slice().find_predicate_match("mdat.x"));
    assert!(group.as_slice().find_predicate_match("tune.XM"));
    assert!(!group.as_slice().find_predicate_match("tune.mp3"));
    let none: Vec<Predicate> = Vec::new();
    assert!(!none.as_slice().find_predicate_match("tune.mp3"));
    assert!(!none.as_slice().find_predicate_match(""));
}

#[test]
fn legacy_predicate_migration() {
    let p = HasExtsPredicate::upgrade(StoredHasExts::V1("mod xm".to_string()));
    assert_eq!(p.ext_list, "mod xm");
    assert!(!p.case_sensitive);
    assert_eq!(p, HasExtsPredicate { ext_list: "mod xm".to_string(), case_sensitive: false });
}

#[test]
fn present_shape_is_kept() {
    let stored = HasExtsPredicate { ext_list: "it s3m".to_string(), case_sensitive: true };
    let p = HasExtsPredicate::upgrade(StoredHasExts::V2(stored));
    assert_eq!(p.ext_list, "it s3m");
    assert!(p.case_sensitive);
}

#[test]
fn kinds_and_their_texts() {
    assert_eq!(PredicateKind::from(&begins_with("x")), PredicateKind::BeginsWith);
    assert_eq!(PredicateKind::from(&has_exts("x", true)), PredicateKind::HasExts);
    assert_eq!(PredicateKind::BeginsWith.label(), "Begins with");
    assert_eq!(PredicateKind::HasExts.label(), "Has extension(s)");
    assert_eq!(
        PredicateKind::BeginsWith.desc(),
        "Begins with a string (e.g. `mdat.`) for TFMX files"
    );
    assert_eq!(
        PredicateKind::HasExts.desc(),
        "Space separated list of file extensions (e.g. `mod xm it`) for module files"
    );
}

#[test]
fn equality_and_clone_and_default() {
    assert_eq!(begins_with("a"), begins_with("a"));
    assert_ne!(begins_with("a"), begins_with("b"));
    assert_ne!(begins_with("a"), has_exts("a", false));
    assert_ne!(has_exts("a", true), has_exts("a", false));
    let p = has_exts("mod xm", true);
    assert_eq!(p.clone(), p);
    let d = HasExtsPredicate::default();
    assert_eq!(d.ext_list, "");
    assert!(!d.case_sensitive);
}
