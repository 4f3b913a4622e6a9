use lux_lib::lua_value::{display_list, DisplayLuaKV, DisplayLuaValue, LuaTableKey};
use lux_lib::module_spec::ModuleSpecInternal;
use lux_lib::rockspec_value::{
    deserialize_copy_directories, deserialize_map_or_seq, display_builtin_spec, display_include,
    display_path_string_map, MapKey, MapOrSeq,
};
use lux_lib::slash_path::{PathKey, PathStyle};
use lux_lib::table::Table;

fn strings(all: &[&str]) -> Vec<String> {
    all.iter().map(|s| s.to_string()).collect()
}

fn key(name: &str) -> LuaTableKey {
    LuaTableKey::StringKey(name.into())
}

#[test]
fn maps_are_tables() {
    let table = deserialize_map_or_seq(MapOrSeq::Entries(vec![
        (MapKey::Text("a".into()), Ok(1)),
        (MapKey::Unsigned(7), Ok(2)),
        (MapKey::Signed(-1), Ok(3)),
        (MapKey::Signed(7), Ok(4)),
    ]))
    .unwrap()
    .unwrap();
    assert_eq!(table.get(&key("a")), Some(&1));
    assert_eq!(table.get(&LuaTableKey::IntKey(7)), Some(&4));
    assert_eq!(table.get(&LuaTableKey::IntKey(u64::MAX)), Some(&3));
    assert_eq!(table.len(), 3);
}

#[test]
fn lists_are_tables_from_one_on() {
    let table = deserialize_map_or_seq(MapOrSeq::Elements(vec![Ok("a"), Ok("b")]))
        .unwrap()
        .unwrap();
    assert_eq!(table.get(&LuaTableKey::IntKey(1)), Some(&"a"));
    assert_eq!(table.get(&LuaTableKey::IntKey(2)), Some(&"b"));
    assert_eq!(table.get(&LuaTableKey::IntKey(0)), None);
    assert_eq!(table.len(), 2);
}

#[test]
fn faults_of_maps_and_lists() {
    let err = deserialize_map_or_seq::<i32>(MapOrSeq::Entries(vec![
        (MapKey::Text("a".into()), Ok(1)),
        (MapKey::Other("Bool(true)".into()), Err("later".into())),
        (MapKey::Text("b".into()), Err("never".into())),
    ]))
    .unwrap_err();
    assert_eq!(err, "unexpected map key: Bool(true)");
    let err = deserialize_map_or_seq::<i32>(MapOrSeq::Entries(vec![(
        MapKey::Text("b".into()),
        Err("bad value".into()),
    )]))
    .unwrap_err();
    assert_eq!(err, "bad value");
    let err = deserialize_map_or_seq::<i32>(MapOrSeq::Elements(vec![
        Ok(1),
        Err("bad element".into()),
        Err("other".into()),
    ]))
    .unwrap_err();
    assert_eq!(err, "bad element");
    assert!(deserialize_map_or_seq::<i32>(MapOrSeq::Nil).unwrap().is_none());
    let err = deserialize_map_or_seq::<i32>(MapOrSeq::Other("Bool(true)".into())).unwrap_err();
    assert_eq!(err, "expected a table or nil, got Bool(true)");
}

#[test]
fn directories_of_the_rock_format_clash() {
    assert_eq!(deserialize_copy_directories(None).unwrap(), None);
    let dirs = Some(strings(&["doc", "luas", "lua/x"]));
    assert_eq!(deserialize_copy_directories(dirs.clone()).unwrap(), dirs);
    let err = deserialize_copy_directories(Some(strings(&["lib", "doc", "lua"]))).unwrap_err();
    assert_eq!(err, "directory 'lua' in copy_directories clashes with the .rock format");
    let err = deserialize_copy_directories(Some(strings(&["rock_manifest", "lib"]))).unwrap_err();
    assert_eq!(err, "directory 'lib' in copy_directories clashes with the .rock format");
    let err = deserialize_copy_directories(Some(strings(&["rock_manifest"]))).unwrap_err();
    assert_eq!(err, "directory 'rock_manifest' in copy_directories clashes with the .rock format");
}

fn entries(value: DisplayLuaValue) -> Vec<(String, String)> {
    match value {
        DisplayLuaValue::Table(all) => all
            .into_iter()
            .map(|DisplayLuaKV { key, value }| match value {
                DisplayLuaValue::String(text) => (key, text),
                other => panic!("{other:?}"),
            })
            .collect(),
        other => panic!("{other:?}"),
    }
}

#[test]
fn tables_are_shown() {
    let spec = Table::from_entries(vec![(key("m"), ModuleSpecInternal::SourcePath("m.lua".into()))]);
    assert_eq!(entries(display_builtin_spec(&spec)), [("m".into(), "m.lua".into())]);
    let map = Table::from_entries(vec![(
        PathKey { style: PathStyle::Unix, text: "a/b.patch".into() },
        "diff".to_string(),
    )]);
    assert_eq!(entries(display_path_string_map(&map)), [("a/b.patch".into(), "diff".into())]);
    let paths = Table::from_entries(vec![(key("x"), "d/x.lua".to_string())]);
    assert_eq!(entries(display_include(&paths)), [("x".into(), "d/x.lua".into())]);
    match display_list(&strings(&["a", "b"])) {
        DisplayLuaValue::List(all) => assert_eq!(all.len(), 2),
        other => panic!("{other:?}"),
    }
}
