use mpvfrog::playlist::{enters, is_excluded_ext, is_hidden, Playlist, ScanOptions, WalkEntry};

fn opts(root: Option<&str>, skip_hidden: bool) -> ScanOptions {
    ScanOptions { music_folder: root.map(String::from), follow_symlinks: false, skip_hidden }
}

fn file(path: &str) -> WalkEntry {
    WalkEntry { path: path.to_string(), is_file: true }
}

fn dir(path: &str) -> WalkEntry {
    WalkEntry { path: path.to_string(), is_file: false }
}

fn paths(p: &Playlist) -> Vec<String> {
    p.iter().map(|item| item.path.clone()).collect()
}

#[test]
fn no_music_folder_gives_an_empty_playlist() {
    let mut p = Playlist::default();
    p.read_songs(&opts(Some("/m"), false), &vec![file("/m/a.flac")]);
    assert_eq!(p.len(), 1);
    p.read_songs(&opts(None, false), &vec![file("/m/a.flac")]);
    assert_eq!(p.len(), 0);
    assert!(p.get(0).is_none());
}

#[test]
fn denylist() {
    let mut p = Playlist::default();
    let walk = vec![dir("/m"), file("/m/cover.jpg"), file("/m/notes.txt"), file("/m/track.flac")];
    p.read_songs(&opts(Some("/m"), false), &walk);
    assert_eq!(paths(&p), vec!["track.flac"]);
}

#[test]
fn denylist_is_case_sensitive_and_exact() {
    let mut p = Playlist::default();
    let walk = vec![
        file("/m/a.JPG"),
        file("/m/b.png"),
        file("/m/c.Txt"),
        file("/m/d.jpeg"),
        file("/m/jpg"),
        file("/m/e.txt.mp3"),
        file("/m/f.mp3.txt"),
    ];
    p.read_songs(&opts(Some("/m"), false), &walk);
    assert_eq!(paths(&p), vec!["a.JPG", "c.Txt", "d.jpeg", "e.txt.mp3", "jpg"]);
    assert!(is_excluded_ext("jpg") && is_excluded_ext("png") && is_excluded_ext("txt"));
    assert!(!is_excluded_ext("JPG") && !is_excluded_ext("") && !is_excluded_ext("jpgx"));
}

#[test]
fn hidden_pruning() {
    let mut walk = vec![dir("/m"), dir("/m/.git"), file("/m/song.ogg"), file("/m/.hidden.ogg")];
    for i in 0..100 {
        walk.push(file(&format!("/m/.git/objects/{}.ogg", i)));
    }
    walk.push(file("/m/album/.cache/x.ogg"));
    walk.push(file("/m/album/y.ogg"));
    let mut p = Playlist::default();
    p.read_songs(&opts(Some("/m"), true), &walk);
    assert_eq!(paths(&p), vec!["album/y.ogg", "song.ogg"]);
    p.read_songs(&opts(Some("/m"), false), &walk);
    assert_eq!(p.len(), 104);
}

#[test]
fn hidden_root_is_pruned_whole() {
    let mut p = Playlist::default();
    let walk = vec![dir("/home/u/.music"), file("/home/u/.music/a.ogg")];
    p.read_songs(&opts(Some("/home/u/.music"), true), &walk);
    assert_eq!(p.len(), 0);
    p.read_songs(&opts(Some("/home/u/.music"), false), &walk);
    assert_eq!(paths(&p), vec!["a.ogg"]);
}

#[test]
fn only_regular_files_under_the_root() {
    let mut p = Playlist::default();
    let walk = vec![
        dir("/m"),
        dir("/m/album"),
        file("/m/album/a.ogg"),
        file("/elsewhere/b.ogg"),
        file("m/c.ogg"),
    ];
    p.read_songs(&opts(Some("/m"), false), &walk);
    assert_eq!(paths(&p), vec!["album/a.ogg"]);
}

#[test]
fn sort_determinism() {
    let a = vec![
        file("/m/b/2.ogg"),
        file("/m/a.b/1.ogg"),
        file("/m/a/3.ogg"),
        file("/m/B.ogg"),
        file("/m/a/10.ogg"),
    ];
    let b = vec![
        file("/m/a/10.ogg"),
        file("/m/B.ogg"),
        file("/m/a/3.ogg"),
        file("/m/b/2.ogg"),
        file("/m/a.b/1.ogg"),
    ];
    let mut p = Playlist::default();
    let mut q = Playlist::default();
    p.read_songs(&opts(Some("/m"), false), &a);
    q.read_songs(&opts(Some("/m/"), false), &b);
    let expected = vec!["B.ogg", "a/10.ogg", "a/3.ogg", "a.b/1.ogg", "b/2.ogg"];
    assert_eq!(paths(&p), expected);
    assert_eq!(paths(&q), expected);
    p.read_songs(&opts(Some("/m"), false), &a);
    assert_eq!(paths(&p), expected);
    p.sort();
    assert_eq!(paths(&p), expected);
}

#[test]
fn sort_agrees_with_std_path_order() {
    let names =
        ["z", "a/b", "a b", "a.b/c", "a/c", "a-b", "é", "A", "a/b/c", "ab", "a0/b", "m.mp3", "m/x"];
    let walk: Vec<WalkEntry> = names.iter().map(|n| file(&format!("root/{}", n))).collect();
    let mut p = Playlist::default();
    p.read_songs(&opts(Some("root"), false), &walk);
    let mut expected: Vec<std::path::PathBuf> = names.iter().map(std::path::PathBuf::from).collect();
    expected.sort_unstable();
    let expected: Vec<String> = expected.iter().map(|e| e.to_str().unwrap().to_string()).collect();
    assert_eq!(paths(&p), expected);
}

#[test]
fn get_len_iter() {
    let mut p = Playlist::default();
    assert_eq!(p.len(), 0);
    assert!(p.get(0).is_none());
    assert_eq!(p.iter().count(), 0);
    p.read_songs(&opts(Some("m"), false), &vec![file("m/b.ogg"), file("m/a.ogg")]);
    assert_eq!(p.len(), 2);
    assert_eq!(p.get(0).unwrap().path, "a.ogg");
    assert_eq!(p.get(1).unwrap().path, "b.ogg");
    assert!(p.get(2).is_none());
    assert_eq!(p.iter().count(), 2);
}

#[test]
fn root_that_is_a_file() {
    let mut p = Playlist::default();
    p.read_songs(&opts(Some("/m/song.ogg"), false), &vec![file("/m/song.ogg")]);
    assert_eq!(paths(&p), vec![""]);
}

#[test]
fn hidden_names() {
    assert!(is_hidden(".git"));
    assert!(is_hidden("."));
    assert!(!is_hidden("a.b"));
    assert!(!is_hidden(""));
    assert!(enters(false, ".git"));
    assert!(!enters(true, ".git"));
    assert!(enters(true, "git"));
}

#[test]
fn many_items_sort() {
    let mut walk = Vec::new();
    let mut x: u64 = 12345;
    for _ in 0..500 {
        x = x.wrapping_mul(6364136223846793005).wrapping_add(1442695040888963407);
        walk.push(file(&format!("r/{}/{}.ogg", (x >> 60) % 7, x >> 33)));
    }
    let mut p = Playlist::default();
    p.read_songs(&opts(Some("r"), false), &walk);
    assert_eq!(p.len(), 500);
    let got = paths(&p);
    let mut expected: Vec<std::path::PathBuf> =
        walk.iter().map(|w| std::path::PathBuf::from(&w.path[2..])).collect();
    expected.sort_unstable();
    let expected: Vec<String> = expected.iter().map(|e| e.to_str().unwrap().to_string()).collect();
    assert_eq!(got, expected);
}
