use std::path::{Path, PathBuf};

use lux_lib::path_order::{path_is_le, sort_paths, text_is_less};
use lux_lib::slash_path::{
    path_collect, path_components, path_components_in, path_extension, path_file_name,
    path_is_below, path_is_rooted, path_join, path_join_in, path_parent, path_parent_in, path_same,
    path_slashed, path_with_extension, paths_contain, paths_unique, PathStyle,
};

const PATHS: &[&str] = &[
    "", "/", "//", "a", "a/", "a//", "a/.", "a/./", "./a", ".", "./", "./.", "..", "../", "../a",
    "/a", "/a/", "//a", "/./a", "/.", "/..", "a/b", "a//b", "a/./b", "a/../b", "a/b/", "a/b/.",
    "a.b", "a.b.c", ".a", ".a.b", "a.", "a..", "..a", "...", "a/.b", "a/b.lua", "a/b.lua/",
    "a/b.lua/.", "a.d/b", "a.d/.", "/a.b/", "foo/init.lua", "foo/bar.tar.gz", "x/..", "ä/ö.ü",
    "a b/c d", "a/b/../..", "init.lua", "/init.lua", "a\u{2028}b",
];

#[test]
fn components_are_those_of_the_standard_library() {
    for path in PATHS {
        let expected: Vec<String> = Path::new(path)
            .components()
            .map(|c| c.as_os_str().to_string_lossy().to_string())
            .collect();
        assert_eq!(path_components(path), expected, "{path:?}");
        let all = path_components(path);
        let collected: PathBuf = Path::new(path).components().collect();
        assert_eq!(path_collect(&all, 0), collected.to_string_lossy(), "{path:?}");
        if !all.is_empty() {
            let rest: PathBuf = Path::new(path).components().skip(1).collect();
            assert_eq!(path_collect(&all, 1), rest.to_string_lossy(), "{path:?}");
        }
        assert_eq!(path_components_in(PathStyle::Unix, path), expected, "{path:?}");
        assert_eq!(path_is_rooted(path), Path::new(path).has_root(), "{path:?}");
    }
}

#[test]
fn parts_are_those_of_the_standard_library() {
    for path in PATHS {
        let expected = Path::new(path);
        assert_eq!(path_file_name(path), expected.file_name().map(|s| s.to_string_lossy().to_string()), "{path:?}");
        assert_eq!(path_extension(path), expected.extension().map(|s| s.to_string_lossy().to_string()), "{path:?}");
        assert_eq!(
            path_parent(path),
            expected.parent().map(|p| p.to_string_lossy().to_string()),
            "{path:?}"
        );
        assert_eq!(path_parent_in(PathStyle::Unix, path), path_parent(path), "{path:?}");
        for ext in ["", "lua", "so.1"] {
            let mut changed = PathBuf::from(path);
            changed.set_extension(ext);
            assert_eq!(path_with_extension(path, ext), changed.to_string_lossy(), "{path:?} {ext:?}");
        }
    }
}

#[test]
fn pairs_are_those_of_the_standard_library() {
    for a in PATHS {
        for b in PATHS {
            let (left, right) = (Path::new(a), Path::new(b));
            assert_eq!(path_same(PathStyle::Unix, a, b), left == right, "{a:?} {b:?}");
            assert_eq!(path_join(a, b), left.join(right).to_string_lossy(), "{a:?} {b:?}");
            assert_eq!(
                path_join_in(PathStyle::Unix, a, b),
                left.join(right).to_string_lossy(),
                "{a:?} {b:?}"
            );
            assert_eq!(
                path_is_below(PathStyle::Unix, a, b),
                right.starts_with(left),
                "{a:?} {b:?}"
            );
            assert_eq!(path_is_le(a, b), left <= right, "{a:?} {b:?}");
            assert_eq!(text_is_less(a, b), a < b, "{a:?} {b:?}");
        }
    }
}

#[test]
fn lists_are_those_of_the_standard_library() {
    let all: Vec<String> = PATHS.iter().map(|p| p.to_string()).collect();
    let mut expected: Vec<PathBuf> = Vec::new();
    for path in &all {
        let path = PathBuf::from(path);
        if !expected.contains(&path) {
            expected.push(path);
        }
    }
    let expected: Vec<String> = expected.iter().map(|p| p.to_string_lossy().to_string()).collect();
    assert_eq!(paths_unique(PathStyle::Unix, all.clone()), expected);
    assert!(paths_contain(PathStyle::Unix, &all, "a/././b//"));
    assert!(!paths_contain(PathStyle::Unix, &all, "q"));
    let mut sorted: Vec<PathBuf> = all.iter().map(PathBuf::from).collect();
    sorted.sort();
    let sorted: Vec<String> = sorted.iter().map(|p| p.to_string_lossy().to_string()).collect();
    assert_eq!(sort_paths(all), sorted);
}

#[test]
fn windows_paths_have_drives_and_shares() {
    let windows = PathStyle::Windows;
    for (base, path, expected) in [
        ("C:/work", "C:/work/src/foo.lua", "C:/work/src/foo.lua"),
        ("C:/work", "src/foo.lua", "C:/work/src/foo.lua"),
        ("C:/work/", "src", "C:/work/src"),
        ("C:/work", "/x", "C:/x"),
        ("C:/work", "D:x", "D:x"),
        ("C:", "x", "C:x"),
        ("C:/", "x", "C:/x"),
        ("work", "x", "work/x"),
        ("work", "/x", "/x"),
        ("//server/share/a", "/x", "//server/share/x"),
        ("//server/share", "x", "//server/share/x"),
        ("C:/work", "//server/share/x", "//server/share/x"),
        ("", "x", "x"),
        ("C:/work", "", "C:/work/"),
        ("C:/work", "1:x", "C:/work/1:x"),
    ] {
        assert_eq!(path_join_in(windows, base, path), expected, "{base:?} {path:?}");
    }
    for (path, expected) in [
        ("C:\\a\\b", vec!["C:", "/", "a", "b"]),
        ("c:/a/./b/", vec!["C:", "/", "a", "b"]),
        ("c:a", vec!["C:", "a"]),
        ("\\\\server\\share", vec!["//server/share", "/"]),
        ("//server/share/x", vec!["//server/share", "/", "x"]),
        ("//server", vec!["/", "server"]),
        ("\\a", vec!["/", "a"]),
        ("a\\b/c", vec!["a", "b", "c"]),
        ("", vec![]),
    ] {
        assert_eq!(path_components_in(windows, path), expected, "{path:?}");
    }
    assert!(path_same(windows, "C:\\a\\b", "c:/a//b"));
    assert!(!path_same(windows, "C:/a", "C:a"));
    assert!(!path_same(PathStyle::Unix, "C:\\a", "C:/a"));
    assert!(path_is_below(windows, "C:\\work\\src", "c:/work/src/x.lua"));
    assert!(!path_is_below(windows, "C:/work/src", "C:/work/srcs/x.lua"));
    assert!(!path_is_below(windows, "C:/work/src", "C:/work"));
    assert_eq!(path_parent_in(windows, "C:/a").as_deref(), Some("C:/"));
    assert_eq!(path_parent_in(windows, "C:/a/b").as_deref(), Some("C:/a"));
    assert_eq!(path_parent_in(windows, "C:a").as_deref(), Some("C:"));
    assert_eq!(path_parent_in(windows, "C:/"), None);
    assert_eq!(path_parent_in(windows, "//s/t/x").as_deref(), Some("//s/t/"));
    assert_eq!(path_slashed(windows, "a\\b/c"), "a/b/c");
    assert_eq!(path_slashed(PathStyle::Unix, "a\\b"), "a\\b");
}
