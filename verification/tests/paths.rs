use mpvfrog::order::paths_le;
use mpvfrog::paths::{extension, file_name, strip_root};
use mpvfrog::text::{
    char_is_space, eq_ignore_ascii_case, join_words, split, split_whitespace, starts_with, str_eq,
    Separator,
};

fn s(x: &str) -> Option<String> {
    Some(x.to_string())
}

#[test]
fn split_whitespace_words() {
    assert_eq!(split_whitespace(""), Vec::<String>::new());
    assert_eq!(split_whitespace(" \t\n "), Vec::<String>::new());
    assert_eq!(split_whitespace("a"), vec!["a"]);
    assert_eq!(split_whitespace("  mod xm\tit\u{3000}s3m  "), vec!["mod", "xm", "it", "s3m"]);
    assert_eq!(split_whitespace("é ü"), vec!["é", "ü"]);
}

#[test]
fn split_whitespace_agrees_with_std() {
    let texts =
        ["", " ", "a b", " a  b ", "x\u{a0}y", "x\u{85}y", "x\u{2003}y z", "a\u{200b}b", "q\r\nw"];
    for text in texts {
        let expected: Vec<String> = text.split_whitespace().map(String::from).collect();
        assert_eq!(split_whitespace(text), expected, "{:?}", text);
    }
}

#[test]
fn whitespace_is_what_std_calls_whitespace() {
    for code in 0..=0x10FFFFu32 {
        if let Some(c) = char::from_u32(code) {
            assert_eq!(char_is_space(c), c.is_whitespace(), "{:x}", code);
        }
    }
}

#[test]
fn ignore_ascii_case_agrees_with_std() {
    let mut chars: Vec<char> = (0u8..=0x7f).map(char::from).collect();
    chars.extend(['\u{e9}', '\u{c9}', '\u{130}', '\u{212a}', '\u{ff21}', '\u{ff41}']);
    for a in &chars {
        for b in &chars {
            let x = format!("x{}", a);
            let y = format!("X{}", b);
            assert_eq!(eq_ignore_ascii_case(&x, &y), x.eq_ignore_ascii_case(&y), "{:?} {:?}", a, b);
        }
    }
}

#[test]
fn split_at_slashes() {
    assert_eq!(split("/usr//bin/", Separator::Slash), vec!["usr", "bin"]);
    assert_eq!(split("a b/c", Separator::Slash), vec!["a b", "c"]);
    assert_eq!(split("///", Separator::Slash), Vec::<String>::new());
}

#[test]
fn file_name_of_paths() {
    assert_eq!(file_name("tmp/foo.txt"), s("foo.txt"));
    assert_eq!(file_name("/usr/bin/"), s("bin"));
    assert_eq!(file_name("foo.txt/."), s("foo.txt"));
    assert_eq!(file_name("foo.txt/.//"), s("foo.txt"));
    assert_eq!(file_name("foo.txt/.."), None);
    assert_eq!(file_name("/"), None);
    assert_eq!(file_name(""), None);
    assert_eq!(file_name("."), None);
    assert_eq!(file_name(".."), None);
    assert_eq!(file_name("a/..."), s("..."));
    assert_eq!(file_name("mdat.song1"), s("mdat.song1"));
}

#[test]
fn file_name_agrees_with_std() {
    let paths = [
        "tmp/foo.txt", "/usr/bin/", "foo.txt/.", "foo.txt/.//", "foo.txt/..", "/", "", "a/b/c.d",
        "x//y", ".hidden", "a/.b/c",
    ];
    for p in paths {
        let name = std::path::Path::new(p).file_name();
        let expected = name.and_then(|n| n.to_str()).map(String::from);
        assert_eq!(file_name(p), expected, "{:?}", p);
    }
}

#[test]
fn extension_of_paths() {
    assert_eq!(extension("a.mp3"), s("mp3"));
    assert_eq!(extension("dir.d/track.tar.gz"), s("gz"));
    assert_eq!(extension("dir.d/track"), None);
    assert_eq!(extension(".bashrc"), None);
    assert_eq!(extension(".config.json"), s("json"));
    assert_eq!(extension("foo."), s(""));
    assert_eq!(extension("a/.."), None);
    assert_eq!(extension(""), None);
}

#[test]
fn extension_agrees_with_std() {
    let paths =
        ["a.mp3", "a.b/c", "a.b/c.d.e", ".x", "..x", "x.", "x..", "dir/", "dir.ext/", "a/./b.c/."];
    for p in paths {
        let ext = std::path::Path::new(p).extension();
        let expected = ext.and_then(|n| n.to_str()).map(String::from);
        assert_eq!(extension(p), expected, "{:?}", p);
    }
}

#[test]
fn strip_root_of_paths() {
    assert_eq!(strip_root("/music/a/b.mp3", "/music"), s("a/b.mp3"));
    assert_eq!(strip_root("/music/a/b.mp3", "/music/"), s("a/b.mp3"));
    assert_eq!(strip_root("music//a/b.mp3", "music"), s("a/b.mp3"));
    assert_eq!(strip_root("/music", "/music"), s(""));
    assert_eq!(strip_root("/musicX/a", "/music"), None);
    assert_eq!(strip_root("music/a", "/music"), None);
    assert_eq!(strip_root("/a", "/a/b"), None);
    assert_eq!(strip_root("./a/b", "./a"), s("b"));
    assert_eq!(strip_root("./a/b", "a"), None);
}

#[test]
fn strip_root_agrees_with_std() {
    let pairs = [
        ("/music/a/b.mp3", "/music"),
        ("/music/a", "/music/"),
        ("m/a/b", "m/a"),
        ("/mX/a", "/m"),
        ("m/a", "/m"),
        ("/m", "/m"),
        ("a/b/c", "a/b/c/d"),
    ];
    for (p, r) in pairs {
        let rest = std::path::Path::new(p).strip_prefix(r).ok();
        let expected = rest.and_then(|x| x.to_str()).map(String::from);
        assert_eq!(strip_root(p, r), expected, "{:?} {:?}", p, r);
    }
}

#[test]
fn starts_with_prefix() {
    assert!(starts_with("mdat.song1", "mdat."));
    assert!(!starts_with("song.mdat", "mdat."));
    assert!(starts_with("abc", ""));
    assert!(starts_with("abc", "abc"));
    assert!(!starts_with("ab", "abc"));
    assert!(!starts_with("", "a"));
}

#[test]
fn ignore_ascii_case() {
    assert!(eq_ignore_ascii_case("MP3", "mp3"));
    assert!(eq_ignore_ascii_case("FlAc", "fLaC"));
    assert!(!eq_ignore_ascii_case("mp3", "mp4"));
    assert!(!eq_ignore_ascii_case("mp3", "mp"));
    assert!(!eq_ignore_ascii_case("É", "é"));
    assert!(!eq_ignore_ascii_case("@", "`"));
    assert!(!eq_ignore_ascii_case("[", "{"));
    assert!(eq_ignore_ascii_case("", ""));
}

#[test]
fn path_order_is_by_components() {
    assert!(paths_le("a/x", "a.b/x"));
    assert!(!paths_le("a.b/x", "a/x"));
    assert!(paths_le("a", "a/b"));
    assert!(!paths_le("a/b", "a"));
    assert!(paths_le("a/b", "a/b"));
    assert!(paths_le("B", "a"));
    assert!(paths_le("a/b", "a/c"));
    assert!(paths_le("", "a"));
    assert!(paths_le("z", "é"));
}

#[test]
fn path_order_agrees_with_std() {
    let all = [
        "a/x", "a.b/x", "a", "a/b", "B", "a b/c", "a-b", "a/b c", "ab/c", "é/a", "z", "a/b/c",
        "a/bb",
    ];
    for x in all {
        for y in all {
            let expected = std::path::Path::new(x) <= std::path::Path::new(y);
            assert_eq!(paths_le(x, y), expected, "{:?} {:?}", x, y);
        }
    }
}

#[test]
fn join_and_compare_words() {
    assert_eq!(join_words(&vec![]), "");
    assert_eq!(join_words(&vec!["a".to_string()]), "a");
    assert_eq!(join_words(&vec!["a".to_string(), "b".to_string(), "c".to_string()]), "a b c");
    assert_eq!(split_whitespace(&join_words(&split_whitespace(" x  y "))), vec!["x", "y"]);
    assert!(str_eq("abc", "abc"));
    assert!(!str_eq("abc", "abd"));
    assert!(!str_eq("abc", "ab"));
    assert!(str_eq("", ""));
    assert_eq!(split("a  b c", Separator::Space), vec!["a", "b", "c"]);
    assert_eq!(split("a\tb c", Separator::Space), vec!["a\tb", "c"]);
}
