use lux_lib::path::{BinPath, PackagePath, Paths, PathsError, RockDirs};
use lux_lib::slash_path::PathStyle;

fn strings(all: &[&str]) -> Vec<String> {
    all.iter().map(|s| s.to_string()).collect()
}

fn rock(name: &str) -> Result<RockDirs, String> {
    Ok(RockDirs {
        src: format!("/rocks/{name}/src"),
        lib: format!("/rocks/{name}/lib"),
        bin: format!("/rocks/{name}/bin"),
    })
}

#[test]
fn package_path_leading_trailing_delimiters() {
    let path = PackagePath::from_str(
        ";;/path/to/some/lib/lua/5.1/?.so;/path/to/another/lib/lua/5.1/?.so;;;",
    )
    .unwrap();
    assert_eq!(
        path,
        PackagePath(vec![
            "/path/to/some/lib/lua/5.1/?.so".into(),
            "/path/to/another/lib/lua/5.1/?.so".into(),
        ])
    );
    assert_eq!(
        path.joined(PathStyle::Unix),
        "/path/to/some/lib/lua/5.1/?.so;/path/to/another/lib/lua/5.1/?.so"
    );
}

#[test]
fn package_path_of_nothing_has_one_empty_entry() {
    assert_eq!(PackagePath::from_str("").unwrap(), PackagePath(strings(&[""])));
    assert_eq!(PackagePath::from_str(";;;").unwrap(), PackagePath(strings(&[""])));
    assert!(PackagePath::default().is_empty());
    assert_eq!(PackagePath::default().joined(PathStyle::Unix), "");
}

#[test]
fn package_path_is_joined_once_per_path() {
    let path = PackagePath(strings(&["/a/?.lua", "/b/?.lua", "/a//?.lua", "/a/./?.lua"]));
    assert_eq!(path.joined(PathStyle::Unix), "/a/?.lua;/b/?.lua");
}

#[test]
fn package_path_is_read_as_it_was_joined() {
    let path = PackagePath(strings(&["/a/?.lua", "b/?/init.lua", "/c/?.so"]));
    assert_eq!(PackagePath::from_str(&path.joined(PathStyle::Unix)).unwrap(), path);
    assert_eq!(PackagePath::from_str(&path.joined(PathStyle::Windows)).unwrap(), path);
    let path = PackagePath(strings(&["C:\\a//?.lua", "./b\\?.lua", "/c/./?.so/", "d:e"]));
    assert_eq!(PackagePath::from_str(&path.joined(PathStyle::Unix)).unwrap(), path);
}

#[test]
fn package_path_keeps_empty_entries_inside() {
    let path = PackagePath::from_str(";a;;b;").unwrap();
    assert_eq!(path, PackagePath(strings(&["a", "", "b"])));
}

#[test]
fn prepended_paths_come_first() {
    let mut path = PackagePath(strings(&["a", "b"]));
    path.prepend(&PackagePath(strings(&["c", "d"])));
    assert_eq!(path, PackagePath(strings(&["c", "d", "a", "b"])));
    let mut bin = BinPath(strings(&["a"]));
    bin.prepend(&BinPath(strings(&["b"])));
    assert_eq!(bin, BinPath(strings(&["b", "a"])));
}

#[test]
fn bin_path_drops_what_cannot_stand_in_path() {
    let mut path = BinPath::default();
    path.add_path("/a".into(), PathStyle::Unix);
    path.add_path("/b:c".into(), PathStyle::Unix);
    path.add_path("/d".into(), PathStyle::Unix);
    assert_eq!(path, BinPath(strings(&["/d", "/a"])));
    assert_eq!(path.joined(PathStyle::Unix), "/d:/a");
    assert!(!path.is_empty());

    let mut path = BinPath::default();
    path.add_path("C:/a;b".into(), PathStyle::Windows);
    path.add_path("C:/\"c\"".into(), PathStyle::Windows);
    assert_eq!(path, BinPath(strings(&["C:/a;b"])));
    assert_eq!(path.joined(PathStyle::Windows), "\"C:/a;b\"");

    let path = BinPath(strings(&["C:\\a\\b", "c:/a//b", "D:\\a\\b", "\\\\s\\t", "//s/t/"]));
    assert_eq!(path.joined(PathStyle::Windows), "C:\\a\\b;D:\\a\\b;\\\\s\\t");
}

#[test]
fn bin_path_with_a_bad_directory_joins_to_nothing() {
    let path = BinPath(strings(&["/a", "/b:c"]));
    assert_eq!(path.joined(PathStyle::Unix), "");
    let path = BinPath(strings(&["/a", "/b\"c"]));
    assert_eq!(path.joined(PathStyle::Windows), "");
}

#[test]
fn bin_path_is_read_as_it_was_joined() {
    let path = BinPath(strings(&["/a", "/b c", ""]));
    let joined = path.joined(PathStyle::Unix);
    assert_eq!(BinPath::from_str(&joined, PathStyle::Unix).unwrap(), path);
    let path = BinPath(strings(&["C:/a", "C:/b;c", "D:/"]));
    let joined = path.joined(PathStyle::Windows);
    assert_eq!(joined, "C:/a;\"C:/b;c\";D:/");
    assert_eq!(BinPath::from_str(&joined, PathStyle::Windows).unwrap(), path);
}

#[test]
fn bin_path_joins_and_splits_like_the_standard_library() {
    for paths in [
        vec!["/a", "/b"],
        vec!["/a", "/a", "/b/"],
        vec![""],
        vec!["/a:b", "/c"],
        vec!["a b", "", "\"q\""],
    ] {
        let unique: Vec<&str> = {
            let mut seen: Vec<&str> = Vec::new();
            for path in &paths {
                if !seen.iter().any(|s| std::path::Path::new(s) == std::path::Path::new(path)) {
                    seen.push(path);
                }
            }
            seen
        };
        let style = PathStyle::Unix;
        let joined = BinPath(strings(&paths)).joined(style);
        if unique.iter().any(|p| p.contains(':')) {
            assert_eq!(joined, "");
        } else {
            assert_eq!(joined, unique.join(":"));
        }
    }
}

#[test]
fn environment_paths_follow() {
    let path = BinPath::from_env(Some("/usr/bin:/bin".into()), PathStyle::Unix);
    assert_eq!(path, BinPath(strings(&["/usr/bin", "/bin"])));
    let path = BinPath::from_env(None, PathStyle::Unix);
    assert_eq!(path, BinPath(strings(&[""])));
}

#[test]
fn paths_of_a_tree() {
    let paths = Paths::new(
        vec![rock("a"), rock("b:c"), rock("d")],
        "5.1".into(),
        Some("/lux/lib".into()),
        "so",
        PathStyle::Unix,
    )
    .unwrap();
    assert_eq!(
        paths.package_path(),
        &PackagePath(strings(&[
            "/rocks/a/src/?.lua",
            "/rocks/a/src/?/init.lua",
            "/rocks/b:c/src/?.lua",
            "/rocks/b:c/src/?/init.lua",
            "/rocks/d/src/?.lua",
            "/rocks/d/src/?/init.lua",
        ]))
    );
    assert_eq!(
        paths.package_cpath(),
        &PackagePath(strings(&[
            "/lux/lib/?.so",
            "/rocks/a/lib/?.so",
            "/rocks/b:c/lib/?.so",
            "/rocks/d/lib/?.so",
        ]))
    );
    assert_eq!(paths.path(), &BinPath(strings(&["/rocks/d/bin", "/rocks/a/bin"])));
    assert_eq!(
        paths.init(),
        "if _VERSION:find('5.1') then require('lux').loader() end"
    );
    assert_eq!(
        paths.package_path_prepended(Some(";x/?.lua;".into())).0.last().unwrap(),
        "x/?.lua"
    );
    assert_eq!(paths.package_cpath_prepended(None).0.last().unwrap(), "");
    assert_eq!(
        paths
            .path_prepended(Some("/usr/bin".into()), PathStyle::Unix)
            .joined(PathStyle::Unix),
        "/rocks/d/bin:/rocks/a/bin:/usr/bin"
    );
}

#[test]
fn paths_of_a_tree_with_a_fault() {
    let err = Paths::new(
        vec![rock("a"), Err("first".into()), Err("second".into())],
        "5.1".into(),
        None,
        "so",
        PathStyle::Unix,
    )
    .unwrap_err();
    assert!(matches!(&err, PathsError::Tree(text) if text == "first"));
    assert_eq!(err.to_message(), "first");
}

#[test]
fn prepending_search_paths() {
    let make = |name: &str| {
        Paths::new(vec![rock(name)], "5.4".into(), None, "so", PathStyle::Unix).unwrap()
    };
    let mut paths = make("a");
    paths.prepend(&make("b"));
    assert_eq!(paths.path(), &BinPath(strings(&["/rocks/b/bin", "/rocks/a/bin"])));
    assert_eq!(paths.package_cpath().joined(PathStyle::Unix), "/rocks/b/lib/?.so;/rocks/a/lib/?.so");
}
