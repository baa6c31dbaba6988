use matrix_fileshare::paths::{
    extension_of, file_name_of, join_path, platform_separator, unix_extension_of, unix_file_name_of,
    unix_join_path,
};
use std::path::Path;

const SAMPLES: [&str; 34] = [
    "", "/", "//", ".", "..", "./", "../", "/.", "/..", "./.", ".//.", "a", "a/", "a//", "a/.",
    "a/./", "a/..", "a/../", "/usr/bin/", "tmp/foo.txt", "foo.txt/.", "foo.txt/.//", "foo.txt/..",
    ".bashrc", "a/.bashrc", "foo.", "foo.tar.gz", ".a.b", "a.b/c", "dir.d/", "x/y.z/.", "..a",
    "a..", "/a/b.JPG",
];

#[test]
fn file_names_match_std_paths() {
    for s in SAMPLES.iter() {
        let expected = Path::new(s).file_name().and_then(|n| n.to_str()).map(|n| n.to_string());
        assert_eq!(file_name_of(platform_separator(), s), expected, "path {:?}", s);
    }
}

#[test]
fn extensions_match_std_paths() {
    for s in SAMPLES.iter() {
        let expected = Path::new(s).extension().and_then(|n| n.to_str()).map(|n| n.to_string());
        assert_eq!(extension_of(platform_separator(), s), expected, "path {:?}", s);
    }
}

#[test]
fn the_platform_separator_is_std_main_separator() {
    assert_eq!(platform_separator(), std::path::MAIN_SEPARATOR);
}

#[test]
fn the_unix_grammar_matches_std_paths_on_unix() {
    if std::path::MAIN_SEPARATOR == '/' {
        for s in SAMPLES.iter() {
            let name = Path::new(s).file_name().and_then(|n| n.to_str()).map(|n| n.to_string());
            let ext = Path::new(s).extension().and_then(|n| n.to_str()).map(|n| n.to_string());
            assert_eq!(unix_file_name_of(s), name, "path {:?}", s);
            assert_eq!(unix_extension_of(s), ext, "path {:?}", s);
            let joined = Path::new("base").join(s);
            assert_eq!(unix_join_path("base", s), joined.to_str().unwrap(), "path {:?}", s);
        }
    }
}

#[test]
fn other_separators_go_to_std_paths() {
    for s in SAMPLES.iter() {
        let joined = Path::new("base\\x").join(s);
        assert_eq!(join_path('\\', "base\\x", s), joined.to_str().unwrap(), "path {:?}", s);
        let name = Path::new(s).file_name().and_then(|n| n.to_str()).map(|n| n.to_string());
        assert_eq!(file_name_of('\\', s), name, "path {:?}", s);
        let ext = Path::new(s).extension().and_then(|n| n.to_str()).map(|n| n.to_string());
        assert_eq!(extension_of('\\', s), ext, "path {:?}", s);
    }
}
