use meusic::paths::{dir_name, extension, file_name, file_stem, parent, parent_dir};
use std::path::Path;

const SAMPLES: &[&str] = &[
    "", "/", "//", "a", "/a", "a/", "/a/", "/a/b", "/a/b/", "a/b/c.mp3", "/m/x.tar.gz", "/m/.hidden",
    "/m/.hidden.mp3", "/m/trailing.", "/m/..", "/m/.", "..", ".", "./a", "a/./b", "a/.", "a//b", "/a//b//",
    "/music/Song One.flac", "rel/dir/", "/\u{fc}/\u{e9}t\u{e9}.ogg", "a.b.c", ".a.b", "...", "/a/b/..",
];

#[test]
fn file_names_as_std_paths() {
    for p in SAMPLES {
        assert_eq!(file_name(p), Path::new(p).file_name().map(|x| x.to_str().unwrap().to_string()), "file_name({p:?})");
    }
}

#[test]
fn parents_as_std_paths() {
    for p in SAMPLES {
        let want = Path::new(p).parent().map(|x| x.to_str().unwrap().to_string());
        assert_eq!(parent(p), want, "parent({p:?})");
    }
}

#[test]
fn extensions_as_std_paths() {
    for p in SAMPLES {
        assert_eq!(extension(p), Path::new(p).extension().map(|x| x.to_str().unwrap().to_string()), "extension({p:?})");
    }
}

#[test]
fn stems_as_std_paths() {
    for p in SAMPLES {
        assert_eq!(file_stem(p), Path::new(p).file_stem().map(|x| x.to_str().unwrap().to_string()), "file_stem({p:?})");
    }
}

#[test]
fn folder_of_a_track() {
    assert_eq!(parent_dir("/music/a/b.mp3"), "/music/a");
    assert_eq!(parent_dir("b.mp3"), "");
    assert_eq!(parent_dir("/"), "");
    assert_eq!(parent_dir("/b.mp3"), "/");
}

#[test]
fn folder_names() {
    assert_eq!(dir_name("/music/a"), "a");
    assert_eq!(dir_name("/music/a/"), "a");
    assert_eq!(dir_name("/"), "/");
    assert_eq!(dir_name(""), "");
    assert_eq!(dir_name("/music/.."), "/music/..");
}
