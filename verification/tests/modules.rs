use lux_lib::build_spec::{BuildBackendSpec, BuildDefaults, BuildSpec, BuildSpecInternal};
use lux_lib::lua_value::{DisplayLuaValue, LuaTableKey};
use lux_lib::module_spec::{
    deserialize_definitions, display_module_table, LuaModule, ModulePaths, ModulePathsInternal,
    ModuleSpec, ModuleSpecInternal, ModuleValue, ParseLuaModuleError,
};
use lux_lib::slash_path::PathStyle;
use lux_lib::table::Table;

fn strings(all: &[&str]) -> Vec<String> {
    all.iter().map(|s| s.to_string()).collect()
}

fn defaults() -> BuildDefaults {
    BuildDefaults {
        makefile: "Makefile".into(),
        make_build_pass: true,
        make_install_target: "install".into(),
        make_install_pass: true,
        cmake_build_pass: true,
        cmake_install_pass: true,
        dll_prefix: "lib".into(),
        dll_extension: "so".into(),
        path_style: PathStyle::Unix,
    }
}

fn paths(sources: &[&str], defines: &[&str]) -> ModulePathsInternal {
    ModulePathsInternal {
        sources: strings(sources),
        libraries: Vec::new(),
        defines: deserialize_definitions(&strings(defines)),
        incdirs: Vec::new(),
        libdirs: Vec::new(),
    }
}

fn builtin(modules: Vec<(&str, ModuleSpecInternal)>) -> Result<Table<LuaModule, ModuleSpec>, String> {
    let internal = BuildSpecInternal {
        builtin_spec: Some(Table::from_entries(
            modules
                .into_iter()
                .map(|(name, spec)| (LuaTableKey::StringKey(name.into()), spec))
                .collect(),
        )),
        ..BuildSpecInternal::default()
    };
    match BuildSpec::from_internal_spec(internal, defaults()) {
        Ok(spec) => match spec.build_backend {
            Some(BuildBackendSpec::Builtin(spec)) => Ok(spec.modules),
            other => panic!("{other:?}"),
        },
        Err(err) => Err(err.to_message()),
    }
}

#[test]
fn parse_lua_module_from_path() {
    let lua_module = LuaModule::from_pathbuf("foo/init.lua".into()).unwrap();
    assert_eq!(lua_module.as_str(), "foo");
    let lua_module = LuaModule::from_pathbuf("foo/bar.lua".into()).unwrap();
    assert_eq!(lua_module.as_str(), "foo.bar");
    let lua_module = LuaModule::from_pathbuf("foo/bar/init.lua".into()).unwrap();
    assert_eq!(lua_module.as_str(), "foo.bar");
    let lua_module = LuaModule::from_pathbuf("foo/bar/baz.lua".into()).unwrap();
    assert_eq!(lua_module.as_str(), "foo.bar.baz");
}

#[test]
fn modules_spec_from_lua() {
    let modules = builtin(vec![
        (
            "foo",
            ModuleSpecInternal::from_value(ModuleValue::Text("lua/foo/init.lua".into())).unwrap(),
        ),
        (
            "bar",
            ModuleSpecInternal::from_value(ModuleValue::List(Ok(strings(&[
                "lua/bar.lua",
                "lua/bar/internal.lua",
            ]))))
            .unwrap(),
        ),
        (
            "baz",
            ModuleSpecInternal::from_value(ModuleValue::Table(Ok(paths(
                &["lua/baz.lua"],
                &["USE_BAZ"],
            ))))
            .unwrap(),
        ),
        (
            "foo",
            ModuleSpecInternal::from_value(ModuleValue::Text("lua/foo/init.lua".into())).unwrap(),
        ),
    ])
    .unwrap();
    let foo = modules.get(&LuaModule::from_str("foo").unwrap()).unwrap();
    assert_eq!(*foo, ModuleSpec::SourcePath("lua/foo/init.lua".into()));
    let bar = modules.get(&LuaModule::from_str("bar").unwrap()).unwrap();
    assert_eq!(
        *bar,
        ModuleSpec::SourcePaths(vec!["lua/bar.lua".into(), "lua/bar/internal.lua".into()])
    );
    let baz = modules.get(&LuaModule::from_str("baz").unwrap()).unwrap();
    assert!(matches!(baz, ModuleSpec::ModulePaths { .. }));

    let result = builtin(vec![("baz", ModuleSpecInternal::ModulePaths(paths(&[], &["USE_BAZ"])))]);
    assert_eq!(result.unwrap_err(), "missing or empty field `sources`");

    let modules = builtin(vec![(
        "baz",
        ModuleSpecInternal::ModulePaths(paths(
            &["lua/baz.lua"],
            &["USE_BAZ=1", "ENABLE_LOGGING=true", "LINK_STATIC"],
        )),
    )])
    .unwrap();
    let baz = modules.get(&LuaModule::from_str("baz").unwrap()).unwrap();
    match baz {
        ModuleSpec::ModulePaths(paths) => assert_eq!(
            paths.defines,
            vec![
                ("USE_BAZ".into(), Some("1".into())),
                ("ENABLE_LOGGING".into(), Some("true".into())),
                ("LINK_STATIC".into(), None)
            ]
        ),
        _ => panic!(),
    }
}

#[test]
fn module_paths() {
    let module = LuaModule::from_str("foo.bar").unwrap();
    assert_eq!(module.to_lua_path(), "foo/bar.lua");
    assert_eq!(module.to_lua_init_path(), "foo/bar/init.lua");
    assert_eq!(module.to_lib_path("so"), "foo/bar.so");
    assert_eq!(module.to_file_path(".x"), "foo/bar.x");
    for path in [module.to_lua_path(), module.to_lua_init_path(), module.to_lib_path("so")] {
        assert_eq!(LuaModule::from_pathbuf(path).unwrap(), module);
    }
    let joined = module.join(&LuaModule::from_str("baz").unwrap());
    assert_eq!(joined.as_str(), "foo.bar.baz");
    assert_eq!(joined.to_lua_path(), "foo/bar/baz.lua");
    assert!(matches!(module.display_lua_value(), DisplayLuaValue::String(s) if s == "foo.bar"));
}

#[test]
fn module_names_that_end_with_init_are_cut() {
    assert_eq!(LuaModule::from_pathbuf("myinit.lua".into()).unwrap().as_str(), "my");
    assert_eq!(LuaModule::from_pathbuf("foo".into()).unwrap().as_str(), "foo");
    assert_eq!(LuaModule::from_pathbuf("foo/bar/".into()).unwrap().as_str(), "foo.bar");
    assert_eq!(LuaModule::from_pathbuf("lib/x.so".into()).unwrap().as_str(), "lib.x");
}

#[test]
fn empty_modules_are_errors() {
    let err = LuaModule::from_pathbuf("init.lua".into()).unwrap_err();
    assert!(matches!(&err, ParseLuaModuleError::EmptyModule(path) if path == "init.lua"));
    assert_eq!(err.to_message(), "path 'init.lua' resulted in an empty Lua module.");
    let err = LuaModule::from_str("").unwrap_err();
    assert_eq!(err.to_message(), "path '' resulted in an empty Lua module.");
    let err = ParseLuaModuleError::FromString("x".into());
    assert_eq!(err.to_message(), "could not parse Lua module from 'x'.");
}

#[test]
fn module_tables_are_shown_with_slashes() {
    let table = Table::from_entries(vec![(LuaModule::from_str("a.b").unwrap(), "src/b.lua".to_string())]);
    match display_module_table(&table) {
        DisplayLuaValue::Table(all) => {
            assert_eq!(all.len(), 1);
            assert_eq!(all[0].key, "a.b");
            assert!(matches!(&all[0].value, DisplayLuaValue::String(s) if s == "src/b.lua"));
        }
        other => panic!("{other:?}"),
    }
}

#[test]
fn module_overrides_keep_the_base() {
    let base = ModuleSpecInternal::SourcePath("base.c".into());
    let over = ModuleSpecInternal::SourcePath("over.c".into());
    assert_eq!(base.clone().apply_overrides(over.clone()).unwrap(), base);
    let lists = ModuleSpecInternal::SourcePaths(strings(&["a.c"]));
    let err = base.apply_overrides(lists).unwrap_err();
    assert_eq!(
        err.to_message(),
        "cannot resolve ambiguous platform override for `build.modules`."
    );
    let base = ModuleSpecInternal::ModulePaths(ModulePathsInternal {
        libraries: strings(&["base"]),
        ..paths(&["base.c"], &[])
    });
    let over = ModuleSpecInternal::ModulePaths(ModulePathsInternal {
        libraries: strings(&["over"]),
        ..paths(&["over.c"], &["X"])
    });
    match base.apply_overrides(over).unwrap() {
        ModuleSpecInternal::ModulePaths(paths) => {
            assert_eq!(paths.sources, strings(&["base.c"]));
            assert_eq!(paths.libraries, strings(&["base"]));
            assert_eq!(paths.defines, vec![("X".to_string(), None)]);
        }
        other => panic!("{other:?}"),
    }
}

#[test]
fn modules_are_shown_as_lua_values() {
    let internal = ModulePathsInternal {
        sources: strings(&["a.c", "b.c"]),
        libraries: strings(&["m"]),
        defines: vec![("X".into(), Some("1".into())), ("Y".into(), None)],
        incdirs: Vec::new(),
        libdirs: strings(&["lib"]),
    };
    let shown = ModuleSpecInternal::ModulePaths(internal).display_lua_value();
    let DisplayLuaValue::Table(all) = shown else { panic!() };
    let keys: Vec<&str> = all.iter().map(|kv| kv.key.as_str()).collect();
    assert_eq!(keys, ["sources", "libraries", "defines", "incdirs", "libdirs"]);
    let list = |i: usize| match &all[i].value {
        DisplayLuaValue::List(all) => all
            .iter()
            .map(|value| match value {
                DisplayLuaValue::String(s) => s.clone(),
                other => panic!("{other:?}"),
            })
            .collect::<Vec<_>>(),
        other => panic!("{other:?}"),
    };
    assert_eq!(list(0), ["a.c", "b.c"]);
    assert_eq!(list(2), ["X=1", "Y"]);
    assert!(list(3).is_empty());
    let shown = ModuleSpecInternal::SourcePath("x.lua".into()).display_lua_value();
    assert!(matches!(shown, DisplayLuaValue::String(s) if s == "x.lua"));
    let shown = ModuleSpecInternal::SourcePaths(strings(&["x.c"])).display_lua_value();
    assert!(matches!(shown, DisplayLuaValue::List(all) if all.len() == 1));
}

#[test]
fn module_values_of_other_kinds_are_errors() {
    let err = ModuleSpecInternal::from_value(ModuleValue::Other("Bool(true)".into())).unwrap_err();
    assert_eq!(err, "expected a string, list, or table for module spec, got: Bool(true)");
    let err = ModuleSpecInternal::from_value(ModuleValue::List(Err("bad".into()))).unwrap_err();
    assert_eq!(err, "bad");
    let err = ModuleSpecInternal::from_value(ModuleValue::Table(Err("worse".into()))).unwrap_err();
    assert_eq!(err, "worse");
    let err = ModulePaths::from_internal(paths(&[], &[])).unwrap_err();
    assert_eq!(err.to_message(), "missing or empty field `sources`");
    let err = lux_lib::module_spec::BuildModulesPlatformOverride;
    assert_eq!(
        err.to_message(),
        "could not resolve platform override for `build.modules`. THIS IS A BUG!"
    );
}

#[test]
fn module_names_of_many_paths() {
    for path in [
        "foo.lua", "foo/init.lua", "init.lua", "init", "a/init/init.lua", "a.b/c.lua", "a.b", "a/b/", "a/",
        "/abs/x.lua", "x.init.lua", "lua.lua", "a/lua.lua", "a/.lua", "a.", "a..lua", "..", ".", "", "/",
        "initinit.lua", "a/b.so", "a/init.so", "a/b.tar.gz", "ä/ö.lua", "x.lua.lua",
    ] {
        let ext = std::path::Path::new(path)
            .extension()
            .map(|ext| ext.to_string_lossy().to_string())
            .unwrap_or_default();
        let expected = path
            .trim_end_matches(format!("init.{ext}").as_str())
            .trim_end_matches(format!(".{ext}").as_str())
            .trim_end_matches("/")
            .replace("/", ".");
        match LuaModule::from_pathbuf(path.into()) {
            Ok(module) => assert_eq!(module.as_str(), expected, "{path:?}"),
            Err(_) => assert_eq!(expected, "", "{path:?}"),
        }
    }
}
