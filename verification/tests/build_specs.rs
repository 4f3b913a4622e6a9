use lux_lib::build_spec::{
    merge_map_opts, override_build_spec_internal, override_opt, BuildBackendSpec, BuildDefaults,
    BuildSpec, BuildSpecInternal, BuildSpecInternalError, CommandBuildSpec,
};
use lux_lib::build_type::BuildType;
use lux_lib::install_spec::{
    install_paths, InstallSpec, InstallValue, LibPathBufTable, LuaPathBufTable,
};
use lux_lib::lua_value::LuaTableKey;
use lux_lib::module_spec::{LuaModule, ModulePathsInternal, ModuleSpecInternal};
use lux_lib::slash_path::{PathKey, PathStyle};
use lux_lib::table::Table;

fn strings(all: &[&str]) -> Vec<String> {
    all.iter().map(|s| s.to_string()).collect()
}

fn table(all: &[(&str, &str)]) -> Table<String, String> {
    Table::from_entries(all.iter().map(|(k, v)| (k.to_string(), v.to_string())).collect())
}

fn key(name: &str) -> LuaTableKey {
    LuaTableKey::StringKey(name.into())
}

fn path_key(path: &str) -> PathKey {
    PathKey { style: PathStyle::Unix, text: path.into() }
}

fn source(path: &str) -> ModuleSpecInternal {
    ModuleSpecInternal::SourcePath(path.into())
}

fn defaults() -> BuildDefaults {
    BuildDefaults {
        makefile: "Makefile".into(),
        make_build_pass: true,
        make_install_target: "install".into(),
        make_install_pass: true,
        cmake_build_pass: true,
        cmake_install_pass: false,
        dll_prefix: "lib".into(),
        dll_extension: "so".into(),
        path_style: PathStyle::Unix,
    }
}

fn nothing() -> BuildSpecInternal {
    BuildSpecInternal::default()
}

fn build(internal: BuildSpecInternal) -> Result<BuildSpec, BuildSpecInternalError> {
    BuildSpec::from_internal_spec(internal, defaults())
}

#[test]
fn empty_spec_is_builtin() {
    for spec in [build(nothing()).unwrap(), BuildSpec::default()] {
        match &spec.build_backend {
            Some(BuildBackendSpec::Builtin(builtin)) => assert_eq!(builtin.modules.len(), 0),
            other => panic!("{other:?}"),
        }
        assert_eq!(spec.install.lua.len(), 0);
        assert_eq!(spec.install.bin.len(), 0);
        assert!(spec.copy_directories.is_empty());
        assert_eq!(spec.patches.len(), 0);
    }
}

#[test]
fn builtin_faults_come_in_table_order() {
    let faulty = |entries: Vec<(LuaTableKey, ModuleSpecInternal)>| {
        build(BuildSpecInternal {
            builtin_spec: Some(Table::from_entries(entries)),
            ..nothing()
        })
        .unwrap_err()
    };
    let no_sources = || {
        ModuleSpecInternal::ModulePaths(ModulePathsInternal {
            sources: Vec::new(),
            libraries: Vec::new(),
            defines: Vec::new(),
            incdirs: Vec::new(),
            libdirs: Vec::new(),
        })
    };
    let err = faulty(vec![(key("a"), source("a.lua")), (LuaTableKey::IntKey(1), source("b.lua"))]);
    assert!(matches!(&err, BuildSpecInternalError::ModulesHaveListElements));
    assert_eq!(err.to_message(), "'builtin' modules should not have list elements");
    let err = faulty(vec![(key(""), no_sources())]);
    assert!(matches!(&err, BuildSpecInternalError::ParseLuaModuleError(_)));
    assert_eq!(err.to_message(), "path '' resulted in an empty Lua module.");
    let err = faulty(vec![(key("a"), no_sources()), (LuaTableKey::IntKey(1), source("b.lua"))]);
    assert!(matches!(&err, BuildSpecInternalError::ModulePathsMissingSources(_)));
    assert_eq!(err.to_message(), "missing or empty field `sources`");
}

#[test]
fn make_spec_takes_defaults() {
    let spec = build(BuildSpecInternal {
        build_type: Some(BuildType::Make),
        makefile: Some("GNUmakefile".into()),
        make_build_target: Some("all".into()),
        build_pass: Some(false),
        make_build_variables: Some(table(&[("CFLAGS", "-O2")])),
        ..nothing()
    })
    .unwrap();
    let backend = spec.build_backend.unwrap();
    assert!(backend.can_use_build_dependencies());
    match backend {
        BuildBackendSpec::Make(make) => {
            assert_eq!(make.makefile, "GNUmakefile");
            assert_eq!(make.build_target.as_deref(), Some("all"));
            assert!(!make.build_pass);
            assert_eq!(make.install_target, "install");
            assert!(make.install_pass);
            assert_eq!(make.build_variables.get(&"CFLAGS".to_string()).unwrap(), "-O2");
            assert_eq!(make.install_variables.len(), 0);
            assert_eq!(make.variables.len(), 0);
        }
        other => panic!("{other:?}"),
    }
}

#[test]
fn cmake_command_and_other_backends() {
    let backend = |build_type: BuildType| {
        build(BuildSpecInternal {
            build_type: Some(build_type),
            build_command: Some("make".into()),
            cmake_lists_content: Some("project(x)".into()),
            ..nothing()
        })
        .unwrap()
        .build_backend
    };
    match backend(BuildType::CMake) {
        Some(BuildBackendSpec::CMake(cmake)) => {
            assert_eq!(cmake.cmake_lists_content.as_deref(), Some("project(x)"));
            assert!(cmake.build_pass);
            assert!(!cmake.install_pass);
        }
        other => panic!("{other:?}"),
    }
    match backend(BuildType::Command) {
        Some(BuildBackendSpec::Command(command)) => assert_eq!(
            command,
            CommandBuildSpec { build_command: Some("make".into()), install_command: None }
        ),
        other => panic!("{other:?}"),
    }
    assert!(backend(BuildType::NoBuild).is_none());
    match backend(BuildType::LuaRock("x".into())) {
        Some(BuildBackendSpec::LuaRock(name)) => assert_eq!(name, "x"),
        other => panic!("{other:?}"),
    }
    let source = backend(BuildType::Source).unwrap();
    assert!(!source.can_use_build_dependencies());
    assert!(!BuildBackendSpec::default().can_use_build_dependencies());
    assert!(matches!(source, BuildBackendSpec::Source));
}

#[test]
fn rust_mlua_modules_are_libraries() {
    let spec = build(BuildSpecInternal {
        build_type: Some(BuildType::RustMlua),
        builtin_spec: Some(Table::from_entries(vec![
            (LuaTableKey::IntKey(1), source("foo")),
            (key("bar.baz"), source("qux.x")),
        ])),
        include_paths: Some(Table::from_entries(vec![
            (LuaTableKey::IntKey(1), "a/b.lua".to_string()),
            (key("c.lua"), "d/e.lua".to_string()),
        ])),
        features: Some(strings(&["x"])),
        ..nothing()
    })
    .unwrap();
    match spec.build_backend {
        Some(BuildBackendSpec::RustMlua(rust)) => {
            assert_eq!(rust.modules.get(&"foo".to_string()).unwrap(), "libfoo.so");
            assert_eq!(rust.modules.get(&"bar.baz".to_string()).unwrap(), "libqux.so");
            assert_eq!(rust.modules.len(), 2);
            assert_eq!(rust.target_path, "target");
            assert!(rust.default_features);
            assert_eq!(rust.features, ["x"]);
            assert!(rust.cargo_extra_args.is_empty());
            assert_eq!(rust.include_paths.get(&path_key("a//b.lua")).unwrap(), "a/b.lua");
            assert_eq!(rust.include_paths.get(&path_key("c.lua")).unwrap(), "d/e.lua");
        }
        other => panic!("{other:?}"),
    }
}

#[test]
fn rust_mlua_faults() {
    let err = build(BuildSpecInternal { build_type: Some(BuildType::RustMlua), ..nothing() })
        .unwrap_err();
    assert_eq!(err.to_message(), "no 'modules' specified for the 'rust-mlua' build backend");
    let err = build(BuildSpecInternal {
        build_type: Some(BuildType::RustMlua),
        builtin_spec: Some(Table::from_entries(vec![(
            key("a"),
            ModuleSpecInternal::SourcePaths(strings(&["a.c"])),
        )])),
        ..nothing()
    })
    .unwrap_err();
    assert_eq!(err.to_message(), "invalid 'rust-mlua' modules format");
}

#[test]
fn treesitter_parsers_need_a_language() {
    let err = build(BuildSpecInternal {
        build_type: Some(BuildType::TreesitterParser),
        ..nothing()
    })
    .unwrap_err();
    assert_eq!(err.to_message(), "no 'lang' specified for 'treesitter-parser' build backend");
    let spec = build(BuildSpecInternal {
        build_type: Some(BuildType::TreesitterParser),
        lang: Some("lua".into()),
        generate: Some(true),
        queries: Some(Table::from_entries(vec![(path_key("q.scm"), "(x)".to_string())])),
        ..nothing()
    })
    .unwrap();
    match spec.build_backend {
        Some(BuildBackendSpec::TreesitterParser(parser)) => {
            assert_eq!(parser.lang, "lua");
            assert!(!parser.parser);
            assert!(parser.generate);
            assert_eq!(parser.location, None);
            assert_eq!(parser.queries.get(&path_key("./q.scm")), None);
            assert_eq!(parser.queries.get(&path_key("q.scm")).unwrap(), "(x)");
        }
        other => panic!("{other:?}"),
    }
}

#[test]
fn overrides_count_and_merge() {
    let base = BuildSpecInternal {
        build_type: Some(BuildType::Make),
        makefile: Some("base".into()),
        make_build_variables: Some(table(&[("A", "1"), ("B", "2")])),
        make_install_variables: Some(table(&[("C", "3")])),
        copy_directories: Some(strings(&["doc", "etc/"])),
        builtin_spec: Some(Table::from_entries(vec![(key("m"), source("base.c"))])),
        ..nothing()
    };
    let over = BuildSpecInternal {
        makefile: Some("over".into()),
        make_build_variables: Some(table(&[("B", "4")])),
        make_install_variables: Some(table(&[("D", "5")])),
        copy_directories: Some(strings(&["etc", "lib64"])),
        builtin_spec: Some(Table::from_entries(vec![
            (key("m"), source("over.c")),
            (key("n"), source("n.c")),
        ])),
        ..nothing()
    };
    let r = override_build_spec_internal(base, over, PathStyle::Unix).unwrap();
    assert_eq!(r.build_type, Some(BuildType::Make));
    assert_eq!(r.makefile.as_deref(), Some("over"));
    let build = r.make_build_variables.unwrap();
    assert_eq!(build.get(&"A".to_string()).unwrap(), "1");
    assert_eq!(build.get(&"B".to_string()).unwrap(), "4");
    let install = r.make_install_variables.unwrap();
    assert_eq!(install.get(&"A".to_string()).unwrap(), "1");
    assert_eq!(install.get(&"B".to_string()).unwrap(), "2");
    assert_eq!(install.get(&"C".to_string()), None);
    assert_eq!(install.get(&"D".to_string()).unwrap(), "5");
    assert_eq!(r.copy_directories.unwrap(), ["doc", "etc/", "lib64"]);
    let modules = r.builtin_spec.unwrap();
    assert_eq!(modules.get(&key("m")), Some(&source("base.c")));
    assert_eq!(modules.get(&key("n")), Some(&source("n.c")));
}

#[test]
fn ambiguous_overrides_are_errors() {
    let with = |spec: ModuleSpecInternal| BuildSpecInternal {
        builtin_spec: Some(Table::from_entries(vec![(key("m"), spec)])),
        ..nothing()
    };
    let err = override_build_spec_internal(
        with(source("m.c")),
        with(ModuleSpecInternal::SourcePaths(strings(&["m.c"]))),
        PathStyle::Unix,
    )
    .unwrap_err();
    assert_eq!(
        err.to_message(),
        "cannot resolve ambiguous platform override for `build.modules`."
    );
    assert!(override_build_spec_internal(with(source("m.c")), nothing(), PathStyle::Unix).is_ok());
}

#[test]
fn options_of_override_and_base() {
    assert_eq!(override_opt(Some(1), Some(2)), Some(1));
    assert_eq!(override_opt(None, Some(2)), Some(2));
    assert_eq!(override_opt::<i32>(None, None), None);
    let merged = merge_map_opts(Some(table(&[("a", "1")])), None).unwrap();
    assert_eq!(merged.get(&"a".to_string()).unwrap(), "1");
    assert!(merge_map_opts::<String, String>(None, None).is_none());
}

#[test]
fn install_tables_take_names_from_paths() {
    let lua = LuaPathBufTable(Table::from_entries(vec![
        (LuaTableKey::IntKey(1), "src/foo.lua".to_string()),
        (key("a.b"), "src/bar.lua".to_string()),
    ]))
    .coerce()
    .unwrap();
    assert_eq!(lua.get(&LuaModule::from_str("foo").unwrap()).unwrap(), "src/foo.lua");
    assert_eq!(lua.get(&LuaModule::from_str("a.b").unwrap()).unwrap(), "src/bar.lua");
    let err = LuaPathBufTable(Table::from_entries(vec![(LuaTableKey::IntKey(1), "/".to_string())]))
        .coerce()
        .unwrap_err();
    assert_eq!(err.to_message(), "path '' resulted in an empty Lua module.");
    let lib = LibPathBufTable(Table::from_entries(vec![
        (LuaTableKey::IntKey(1), "lib/foo.so".to_string()),
        (LuaTableKey::IntKey(2), "..".to_string()),
        (key("x"), "lib/bar.so".to_string()),
    ]))
    .coerce();
    assert_eq!(lib.get(&"foo.so".to_string()).unwrap(), "lib/foo.so");
    assert_eq!(lib.get(&"".to_string()).unwrap(), "..");
    assert_eq!(lib.get(&"x".to_string()).unwrap(), "lib/bar.so");
    assert_eq!(InstallSpec::default().conf.len(), 0);
}

fn full() -> BuildSpecInternal {
    BuildSpecInternal {
        build_type: Some(BuildType::Make),
        makefile: Some("GNUmakefile".into()),
        make_build_variables: Some(table(&[("A", "1")])),
        make_install_variables: Some(table(&[("B", "2")])),
        copy_directories: Some(strings(&["doc", "doc"])),
        builtin_spec: Some(Table::from_entries(vec![(key("m"), source("m.c"))])),
        ..nothing()
    }
}

#[test]
fn empty_overrides_keep_the_base() {
    let r = override_build_spec_internal(full(), nothing(), PathStyle::Unix).unwrap();
    assert_eq!(r.build_type, Some(BuildType::Make));
    assert_eq!(r.makefile.as_deref(), Some("GNUmakefile"));
    assert_eq!(r.copy_directories.unwrap(), ["doc", "doc"]);
    assert_eq!(r.builtin_spec.unwrap().get(&key("m")), Some(&source("m.c")));
    let install = r.make_install_variables.unwrap();
    assert_eq!(install.get(&"A".to_string()).unwrap(), "1");
    assert_eq!(install.get(&"B".to_string()), None);
}

#[test]
fn overrides_of_nothing_are_the_override() {
    let r = override_build_spec_internal(nothing(), full(), PathStyle::Unix).unwrap();
    assert_eq!(r.build_type, Some(BuildType::Make));
    assert_eq!(r.copy_directories.unwrap(), ["doc", "doc"]);
    let install = r.make_install_variables.unwrap();
    assert_eq!(install.get(&"A".to_string()), None);
    assert_eq!(install.get(&"B".to_string()).unwrap(), "2");
}

#[test]
fn modules_are_installed_from_lists_of_one_path() {
    let list = |all: &[&str]| InstallValue::List(strings(all), "no path".into());
    // build.install.lua = {["foo.bar"] = {"src/bar.lua"}}
    let values = Table::from_entries(vec![
        (key("foo.bar"), list(&["src/bar.lua"])),
        (LuaTableKey::IntKey(1), InstallValue::Text("src/baz.lua".into())),
    ]);
    let lua = LuaPathBufTable(install_paths(values).unwrap()).coerce().unwrap();
    assert_eq!(lua.len(), 2);
    let module = LuaModule::from_str("foo.bar").unwrap();
    assert_eq!(lua.get(&module).unwrap(), "src/bar.lua");
    assert_eq!(module.to_lua_path(), "foo/bar.lua");
    assert_eq!(lua.get(&LuaModule::from_str("baz").unwrap()).unwrap(), "src/baz.lua");

    let refused = |key: LuaTableKey, value: InstallValue| {
        install_paths(Table::from_entries(vec![(key, value)])).unwrap_err()
    };
    assert_eq!(refused(key("a"), list(&[])), "no path");
    assert_eq!(refused(key("a"), list(&["x", "y"])), "no path");
    assert_eq!(refused(LuaTableKey::IntKey(1), list(&["x"])), "no path");
    assert_eq!(refused(key("a"), InstallValue::Other("a number".into())), "a number");
}

#[test]
fn paths_stay_as_they_were_written_first() {
    let one = |path: &str, text: &str| {
        Some(Table::from_entries(vec![(path_key(path), text.to_string())]))
    };
    let base = BuildSpecInternal {
        build_type: Some(BuildType::TreesitterParser),
        lang: Some("lua".into()),
        queries: one("a/b", "old"),
        ..nothing()
    };
    let over = BuildSpecInternal { queries: one("a//b", "new"), ..nothing() };
    let spec = build(override_build_spec_internal(base, over, PathStyle::Unix).unwrap()).unwrap();
    match spec.build_backend {
        Some(BuildBackendSpec::TreesitterParser(parser)) => {
            assert_eq!(parser.queries.into_entries(), [(path_key("a/b"), "new".to_string())]);
        }
        other => panic!("{other:?}"),
    }
    let merged = merge_map_opts(one("x/./y", "2"), one("x/y", "1")).unwrap();
    assert_eq!(merged.into_entries(), [(path_key("x/y"), "2".to_string())]);

    let copied = BuildSpecInternal {
        build_type: Some(BuildType::RustMlua),
        builtin_spec: Some(Table::from_entries(vec![(key("m"), source("m"))])),
        include_paths: Some(Table::from_entries(vec![
            (key("a/b"), "first".to_string()),
            (key("a//b"), "second".to_string()),
        ])),
        ..nothing()
    };
    match build(copied).unwrap().build_backend {
        Some(BuildBackendSpec::RustMlua(rust)) => {
            assert_eq!(
                rust.include_paths.into_entries(),
                [(path_key("a/b"), "second".to_string())]
            );
        }
        other => panic!("{other:?}"),
    }
}
