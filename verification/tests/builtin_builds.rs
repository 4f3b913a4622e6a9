use lux_lib::build_spec::BuiltinBuildSpec;
use lux_lib::builtin_build::{
    autodetect_bin_scripts, autodetect_modules, bin_targets, detect_module, detect_modules,
    installed_names, module_dirs, script_dirs, source_paths, BuiltinBuildError, ModuleAction,
    ModuleStep, WalkedFile,
};
use lux_lib::module_spec::{LuaModule, ModulePaths, ModuleSpec, ParseLuaModuleError};
use lux_lib::slash_path::PathStyle;
use lux_lib::table::Table;

fn strings(all: &[&str]) -> Vec<String> {
    all.iter().map(|s| s.to_string()).collect()
}

fn files(all: &[&str]) -> Vec<WalkedFile> {
    all.iter()
        .map(|path| WalkedFile {
            path: path.to_string(),
            file_name: path.rsplit('/').next().unwrap().to_string(),
        })
        .collect()
}

fn module(name: &str) -> LuaModule {
    LuaModule::from_str(name).unwrap()
}

fn modules(all: &[(&str, &str)]) -> Table<LuaModule, ModuleSpec> {
    Table::from_entries(
        all.iter()
            .map(|(name, path)| (module(name), ModuleSpec::SourcePath(path.to_string())))
            .collect(),
    )
}

fn step<'a>(steps: &'a [ModuleStep], name: &str) -> &'a ModuleStep {
    let mut found = steps.iter().filter(|step| step.module.as_str() == name);
    let step = found.next().unwrap();
    assert!(found.next().is_none());
    step
}

#[test]
fn lua_files_are_modules() {
    let found = autodetect_modules(
        "/build",
        &files(&[
            "/build/src",
            "/build/src/init.lua",
            "/build/src/foo.lua",
            "/build/src/foo/init.lua",
            "/build/src/foo/bar.lua",
            "/build/src/foo/data.txt",
            "/build/lua/baz.lua",
            "/build/lib/deep/er/x.lua",
            "/build/lua/skipped.lua",
        ]),
        &strings(&["/build/lua/./skipped.lua"]),
        PathStyle::Unix,
    )
    .unwrap();
    for (name, path) in [
        ("init", "src/init.lua"),
        ("foo", "src/foo.lua"),
        ("foo.init", "src/foo/init.lua"),
        ("foo.bar", "src/foo/bar.lua"),
        ("baz", "lua/baz.lua"),
        ("deep.er.x", "lib/deep/er/x.lua"),
    ] {
        assert_eq!(
            found.get(&module(name)),
            Some(&ModuleSpec::SourcePath(path.into())),
            "{name}"
        );
    }
    assert_eq!(found.len(), 6);
}

#[test]
fn only_three_directories_hold_modules() {
    assert_eq!(module_dirs("/build", PathStyle::Unix), ["/build/src", "/build/lua", "/build/lib"]);
    let found = autodetect_modules(
        "/build",
        &files(&[
            "/build/src/init.lua",
            "/build/src/skip.lua",
            "/build/src/notes.txt",
            "/build/lua/foo/init.lua",
            "/build/lib/foo/bar.lua",
            "/build/other/baz.lua",
            "/build/top.lua",
            "/elsewhere/src/x.lua",
        ]),
        &strings(&["/build/src/skip.lua"]),
        PathStyle::Unix,
    )
    .unwrap();
    for (name, path) in [
        ("init", "src/init.lua"),
        ("foo.init", "lua/foo/init.lua"),
        ("foo.bar", "lib/foo/bar.lua"),
    ] {
        assert_eq!(found.get(&module(name)), Some(&ModuleSpec::SourcePath(path.into())), "{name}");
    }
    assert_eq!(found.len(), 3);
}

#[test]
fn modules_of_single_files() {
    assert_eq!(detect_module("src/init.lua", "init.lua").unwrap(), module("init"));
    assert_eq!(detect_module("src/a/init.lua", "init.lua").unwrap(), module("a.init"));
    assert_eq!(detect_module("src/a/b.lua", "b.lua").unwrap(), module("a.b"));
    let err = detect_module("src", "src").unwrap_err();
    assert!(matches!(err, ParseLuaModuleError::EmptyModule(path) if path.is_empty()));
}

#[test]
fn files_without_a_module_name_are_errors() {
    let found = |dirs: &[&str]| {
        detect_modules(
            &files(&["/b/x.lua"]),
            vec![Some("x.lua".into())],
            &strings(dirs),
            &Vec::new(),
            PathStyle::Unix,
        )
    };
    assert_eq!(found(&["/b/src"]).unwrap().len(), 0);
    let err = found(&["/b"]).unwrap_err();
    assert_eq!(err.to_message(), "path '' resulted in an empty Lua module.");
    assert_eq!(
        BuiltinBuildError::ParseLuaModule(err).to_message(),
        "path '' resulted in an empty Lua module."
    );
    assert_eq!(
        BuiltinBuildError::InstallBinary("x".into(), "boom".into()).to_message(),
        "failed to install binary x: boom"
    );
    assert_eq!(BuiltinBuildError::Io("io".into()).to_message(), "io");
    assert_eq!(BuiltinBuildError::Tree("tree".into()).to_message(), "tree");
    assert_eq!(BuiltinBuildError::CompileCFiles("c".into()).to_message(), "c");
    assert_eq!(BuiltinBuildError::CompileCModules("m".into()).to_message(), "m");
}

#[test]
fn sources_of_modules() {
    let mut all = modules(&[("a", "a.lua")]);
    all.insert(module("b"), ModuleSpec::SourcePaths(strings(&["b.c", "/abs/c.c"])));
    assert_eq!(
        source_paths("/build", &all, PathStyle::Unix),
        ["/build/a.lua", "/build/b.c", "/abs/c.c"]
    );
    assert_eq!(
        source_paths("C:/build", &modules(&[("a", "a.lua"), ("b", "D:/b.c")]), PathStyle::Windows),
        ["C:/build/a.lua", "D:/b.c"]
    );
}

#[test]
fn modules_are_built() {
    let mut all = modules(&[("foo", "custom.lua"), ("c", "src/c.c")]);
    all.insert(module("d"), ModuleSpec::SourcePaths(strings(&["d.c", "e.c"])));
    all.insert(
        module("f"),
        ModuleSpec::ModulePaths(ModulePaths {
            sources: strings(&["src/f.lua"]),
            libraries: Vec::new(),
            defines: Vec::new(),
            incdirs: Vec::new(),
            libdirs: Vec::new(),
        }),
    );
    let spec = BuiltinBuildSpec { modules: all };
    let steps = spec
        .run("/b", &files(&["/b/src/foo.lua", "/b/src/bar.lua", "/b/src/f.lua"]), PathStyle::Unix)
        .unwrap();
    assert_eq!(steps.len(), 5);
    let foo = step(&steps, "foo");
    assert_eq!(foo.message, "Copying custom.lua to foo...");
    assert!(matches!(&foo.action, ModuleAction::CopyLua(path) if path == "/b/custom.lua"));
    let bar = step(&steps, "bar");
    assert!(matches!(&bar.action, ModuleAction::CopyLua(path) if path == "/b/src/bar.lua"));
    let c = step(&steps, "c");
    assert_eq!(c.message, "Compiling src/c.c -> c...");
    assert!(matches!(&c.action, ModuleAction::CompileFiles(paths) if *paths == ["/b/src/c.c"]));
    let d = step(&steps, "d");
    assert_eq!(d.message, "Compiling C files...");
    assert!(
        matches!(&d.action, ModuleAction::CompileFiles(paths) if *paths == ["/b/d.c", "/b/e.c"])
    );
    let f = step(&steps, "f");
    assert_eq!(f.message, "Compiling C modules...");
    assert!(matches!(&f.action, ModuleAction::CompileModule(_)));
}

#[test]
fn scripts_are_installed_under_their_names() {
    assert_eq!(script_dirs("/b", PathStyle::Unix), ["/b/src/bin", "/b/bin"]);
    let entries = vec![
        ("/b/bin".into(), false),
        ("/b/bin/foo".into(), true),
        ("/b/src/bin/bar".into(), true),
        ("/b/src/other".into(), true),
    ];
    let scripts = autodetect_bin_scripts("/b", entries, PathStyle::Unix);
    assert_eq!(scripts, ["/b/bin/foo", "/b/src/bin/bar"]);
    let mut scripts = scripts;
    scripts.push("..".into());
    let targets = bin_targets(scripts);
    let pairs: Vec<(&str, &str)> =
        targets.iter().map(|t| (t.path.as_str(), t.name.as_str())).collect();
    assert_eq!(pairs, [("/b/bin/foo", "foo"), ("/b/src/bin/bar", "bar")]);
    assert_eq!(installed_names(strings(&["/t/bin/foo", "/", "/t/bin/bar.bat"])), ["foo", "bar.bat"]);
}

#[test]
fn builtin_build_autodetect_bin_scripts() {
    let entries = vec![
        ("/project/src/bin".into(), false),
        ("/project/src/bin/foo".into(), true),
        ("/project/bin".into(), false),
        ("/project/bin/bar".into(), true),
    ];
    let targets = bin_targets(autodetect_bin_scripts("/project", entries, PathStyle::Unix));
    let names: Vec<&str> = targets.iter().map(|target| target.name.as_str()).collect();
    assert!(names.contains(&"foo"));
    assert!(names.contains(&"bar"));
}

#[test]
fn builtin_build_support_src_init_lua() {
    let steps = BuiltinBuildSpec { modules: Table::new() }
        .run("/project", &files(&["/project/src", "/project/src/init.lua"]), PathStyle::Unix)
        .unwrap();
    assert_eq!(steps.len(), 1);
    assert_eq!(steps[0].module.to_lua_path(), "init.lua");
    assert!(
        matches!(&steps[0].action, ModuleAction::CopyLua(path) if path == "/project/src/init.lua")
    );
}
