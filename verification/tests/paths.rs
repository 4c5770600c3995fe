use dscribe::{file_name, front_matter_cache_path, join_path, tmp_file_extension, write_front_matter_cache};
use std::path::{Path, PathBuf};

const PATHS: [&str; 24] = [
    "notes/a.md", "a.md", "/usr/bin/", "tmp/foo.txt", "foo.txt/.", "foo.txt/.//", "foo.txt/..", "/",
    "", ".", "..", "./", "a/./", "/a", ".bashrc", "dir/.bashrc", "a.", "..a", "a.b.c", "x/y/z.tar.gz",
    "./note", "a//b", "notes/é.md", "noext",
];

fn std_file_name(p: &str) -> Option<String> {
    Path::new(p).file_name().map(|n| n.to_string_lossy().into_owned())
}

fn std_tmp(p: &str) -> String {
    let name = std_file_name(p).unwrap();
    Path::new(&name).with_extension("tmp").to_string_lossy().into_owned()
}

#[test]
fn file_name_matches_std_path() {
    for p in PATHS.iter() {
        assert_eq!(file_name(p), std_file_name(p), "{:?}", p);
    }
}

#[test]
fn tmp_file_extension_matches_std_path() {
    for p in PATHS.iter() {
        if std_file_name(p).is_some() {
            assert_eq!(tmp_file_extension(p.to_string()), std_tmp(p), "{:?}", p);
        }
    }
}

#[test]
fn tmp_file_extension_examples() {
    assert_eq!(tmp_file_extension("notes/today.md".to_string()), "today.tmp");
    assert_eq!(tmp_file_extension("notes/.hidden".to_string()), ".hidden.tmp");
    assert_eq!(tmp_file_extension("archive.tar.gz".to_string()), "archive.tar.tmp");
    assert_eq!(tmp_file_extension("plain".to_string()), "plain.tmp");
    assert_eq!(tmp_file_extension("notes/..x".to_string()), "..");
    assert_eq!(tmp_file_extension("a.".to_string()), "a.tmp");
}

#[test]
fn tmp_file_extension_is_idempotent() {
    for p in PATHS.iter() {
        if std_file_name(p).is_some() {
            let once = tmp_file_extension(p.to_string());
            if once == ".." {
                continue;
            }
            assert_eq!(tmp_file_extension(once.clone()), once);
        }
    }
}

#[test]
fn join_path_matches_std_push() {
    for dir in ["", "/", "/home/u/.cache/dscribe", "cache/", "a"].iter() {
        for name in ["x.tmp", "/abs", ".h.tmp"].iter() {
            let expected = PathBuf::from(dir).join(name).to_string_lossy().into_owned();
            assert_eq!(join_path(dir, name), expected, "{:?} {:?}", dir, name);
        }
    }
}

#[test]
fn cache_path_and_contents() {
    assert_eq!(front_matter_cache_path("/c/dscribe", "notes/n.md".to_string()), "/c/dscribe/n.tmp");
    let fm = vec!["title: t".to_string(), "tags: x".to_string()];
    let (path, text) = write_front_matter_cache("/c/dscribe/", "n.md".to_string(), &fm);
    assert_eq!(path, "/c/dscribe/n.tmp");
    assert_eq!(text, "title: t\ntags: x\n");
}
