use lux_lib::gen_luarc::{
    library_dirs, previous_content, sorted_libraries, update_luarc_content, GenLuaRcError,
    LibraryDir, LuaRC, LuaRcWorkspace,
};
use lux_lib::slash_path::PathStyle;
use serde_json::Value;

fn parse(text: &str) -> LuaRC<serde_json::Map<String, Value>> {
    let mut other: serde_json::Map<String, Value> = serde_json::from_str(text).unwrap();
    let mut workspace = match other.remove("workspace") {
        Some(Value::Object(workspace)) => workspace,
        None => serde_json::Map::new(),
        Some(value) => panic!("{value:?}"),
    };
    let library = match workspace.remove("library") {
        Some(Value::Array(all)) => {
            all.iter().map(|path| path.as_str().unwrap().to_string()).collect()
        }
        None => Vec::new(),
        Some(value) => panic!("{value:?}"),
    };
    LuaRC { other, workspace: LuaRcWorkspace { other: workspace, library } }
}

#[test]
fn test_generate_luarc_with_previous_libraries_parametrized() {
    let cases = vec![
        (
            "Empty existing libraries, adding single lib",
            r#"{
                "workspace": {
                    "library": []
                }
            }"#,
            vec![".lux/5.1/my-lib".into()],
            r#"{
                "workspace": {
                    "library": [".lux/5.1/my-lib"]
                }
            }"#,
        ),
        (
            "Other fields present, adding libs",
            r#"{
                "any-other-field": true,
                "workspace": {
                    "library": []
                }
            }"#,
            vec![".lux/5.1/lib-A".into(), ".lux/5.1/lib-B".into()],
            r#"{
                "any-other-field": true,
                "workspace": {
                    "library": [".lux/5.1/lib-A", ".lux/5.1/lib-B"]
                }
            }"#,
        ),
        (
            "Removes not present libs, without removing others",
            r#"{
                "workspace": {
                    "library": [".lux/5.1/lib-A", ".lux/5.4/lib-B"]
                }
            }"#,
            vec![".lux/5.1/lib-C".into()],
            r#"{
                "workspace": {
                    "library": [".lux/5.1/lib-C"]
                }
            }"#,
        ),
    ];

    for (description, initial, new_libs, expected) in cases {
        let content = update_luarc_content(parse(initial), &new_libs, PathStyle::Unix);

        assert_eq!(
            content,
            parse(expected),
            "Case failed: {}\nInitial input:\n{}\nNew libs: {:?}",
            description,
            initial,
            &new_libs
        );
    }
}

#[test]
fn other_libraries_stay_in_order() {
    let initial = parse(r#"{"workspace": {"x": 1, "library": ["b", ".lux/a", ".luxury", "a"]}}"#);
    let once = update_luarc_content(initial, &vec![".lux/c".into()], PathStyle::Unix);
    assert_eq!(once.workspace.library, ["b", ".luxury", "a", ".lux/c"]);
    assert_eq!(once.workspace.other.get("x"), Some(&Value::from(1)));
    let twice = update_luarc_content(once, &vec![".lux/d".into()], PathStyle::Unix);
    assert_eq!(twice.workspace.library, ["b", ".luxury", "a", ".lux/d"]);
    let again = update_luarc_content(twice, &vec![".lux/d".into()], PathStyle::Unix);
    assert_eq!(again.workspace.library, ["b", ".luxury", "a", ".lux/d"]);
    let unclean = vec![".lux/d//e".into(), ".lux/\\".into()];
    let once = update_luarc_content(again, &unclean, PathStyle::Unix);
    assert_eq!(once.workspace.library[3..], [".lux/d//e", ".lux/\\"]);
    let library = once.workspace.library.clone();
    let twice = update_luarc_content(once, &unclean, PathStyle::Unix);
    assert_eq!(twice.workspace.library, library);
    let windows = update_luarc_content(twice, &vec![".lux/f".into()], PathStyle::Windows);
    assert_eq!(windows.workspace.library, ["b", ".luxury", "a", ".lux/f"]);
}

#[test]
fn libraries_are_relative_and_sorted() {
    let dir = |path: &str, is_dir: bool| LibraryDir { path: path.into(), is_dir };
    let dirs = library_dirs(
        "/w",
        &vec![dir("/w/.lux/b/src", true), dir("/w/.lux/gone", false), dir("/w/.lux/a-x", true)],
        &vec![dir("/w/.lux/a/src", true), dir("/elsewhere/src", true)],
    );
    assert_eq!(dirs, ["../elsewhere/src", ".lux/a/src", ".lux/a-x", ".lux/b/src"]);
    assert_eq!(
        sorted_libraries(vec![Some("b".into()), None, Some("a".into())]),
        ["a", "b"]
    );
}

#[test]
fn content_to_start_from() {
    assert_eq!(previous_content(None), "{}");
    assert_eq!(previous_content(Some("{\"a\": 1}".into())), "{\"a\": 1}");
    assert_eq!(
        GenLuaRcError::Write("/x".into(), "full".into()).to_message(),
        "failed to write /x:\nfull"
    );
    assert_eq!(
        GenLuaRcError::Serialize("x".into()).to_message(),
        "failed to serialize luarc content:\nx"
    );
    assert_eq!(
        GenLuaRcError::Deserialize("x".into()).to_message(),
        "failed to deserialize luarc content:\nx"
    );
    assert_eq!(GenLuaRcError::Workspace("x".into()).to_message(), "x");
    assert_eq!(GenLuaRcError::WorkspaceTree("x".into()).to_message(), "x");
}
