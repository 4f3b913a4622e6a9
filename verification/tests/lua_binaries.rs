use lux_lib::lua_binary::{
    installed_lua, parse_lua_version_from_output, version_output, versioned_name, DefaultLua,
    DetectLuaVersionError, InstalledVersion, LuaBinary, LuaBinaryError, LuaInstallationError,
    LuaPlace, LuaSearch,
};
use lux_lib::lua_installation::{
    find_first, find_lua_executable, find_lua_lib, is_lua_lib_name as lib_name, pkg_name_probes,
    BinFile, ExternalDependencyInfo, LibPlatform, LuaInstallation, NewLua, Variable,
};
use lux_lib::slash_path::PathStyle;
use lux_lib::lua_version::LuaVersion;

fn unix() -> LibPlatform {
    LibPlatform { lib_extension: "a".into(), unix: true, msvc: false, path_style: PathStyle::Unix }
}

fn msvc() -> LibPlatform {
    LibPlatform { lib_extension: "lib".into(), unix: false, msvc: true, path_style: PathStyle::Windows }
}

fn is_lua_lib_name(name: &str, version: &LuaVersion) -> bool {
    lib_name(name, version, &unix())
}

fn is_lua_lib_name_msvc(name: &str, version: &LuaVersion) -> bool {
    lib_name(name, version, &msvc())
}

#[test]
fn parse_luajit_version() {
    let luajit_output =
        "LuaJIT 2.1.1713773202 -- Copyright (C) 2005-2023 Mike Pall. https://luajit.org/";
    assert_eq!(parse_lua_version_from_output(luajit_output).unwrap(), "2.1.1713773202");
}

#[test]
fn parse_lua_51_version() {
    let lua_output = "Lua 5.1.5  Copyright (C) 1994-2012 Lua.org, PUC-Rio";
    assert_eq!(parse_lua_version_from_output(lua_output).unwrap(), "5.1.5");
}

#[test]
fn mod_test_is_lua_lib_name() {
    assert!(is_lua_lib_name("lua.a", &LuaVersion::Lua51));
    assert!(is_lua_lib_name("lua-5.1.a", &LuaVersion::Lua51));
    assert!(is_lua_lib_name("lua5.1.a", &LuaVersion::Lua51));
    assert!(is_lua_lib_name("lua51.a", &LuaVersion::Lua51));
    assert!(!is_lua_lib_name("lua-5.2.a", &LuaVersion::Lua51));
    assert!(is_lua_lib_name("luajit-5.2.a", &LuaVersion::LuaJIT52));
    assert!(is_lua_lib_name("lua-5.2.a", &LuaVersion::LuaJIT52));
    assert!(is_lua_lib_name("liblua.a", &LuaVersion::Lua51));
    assert!(is_lua_lib_name("liblua-5.1.a", &LuaVersion::Lua51));
    assert!(is_lua_lib_name("liblua53.a", &LuaVersion::Lua53));
    assert!(is_lua_lib_name("liblua-54.a", &LuaVersion::Lua54));
    assert!(is_lua_lib_name("liblua-55.a", &LuaVersion::Lua55));

    assert!(is_lua_lib_name_msvc("lua.lib", &LuaVersion::Lua51));
    assert!(is_lua_lib_name_msvc("lua-5.1.lib", &LuaVersion::Lua51));
    assert!(!is_lua_lib_name_msvc("lua-5.2.lib", &LuaVersion::Lua51));
    assert!(!is_lua_lib_name_msvc("lua53.lib", &LuaVersion::Lua53));
    assert!(!is_lua_lib_name_msvc("lua53.lib", &LuaVersion::Lua53));
    assert!(is_lua_lib_name_msvc("luajit-5.2.lib", &LuaVersion::LuaJIT52));
    assert!(is_lua_lib_name_msvc("lua-5.2.lib", &LuaVersion::LuaJIT52));
}

#[test]
fn library_names_of_other_things() {
    assert!(!is_lua_lib_name("luajit.a", &LuaVersion::Lua51));
    assert!(is_lua_lib_name("luajit.a", &LuaVersion::LuaJIT));
    assert!(!is_lua_lib_name("mylua5.1.a", &LuaVersion::Lua51));
    assert!(!lib_name("liblua.lib", &LuaVersion::Lua51, &msvc()));
    assert!(is_lua_lib_name("liblibluajit.a", &LuaVersion::LuaJIT));
}

#[test]
fn versions_that_cannot_be_read() {
    for output in ["", "Lua", "LuaJIT  \t"] {
        let err = parse_lua_version_from_output(output).unwrap_err();
        assert_eq!(
            err.to_message(),
            format!("failed to parse Lua version from output: {output}")
        );
    }
    assert_eq!(parse_lua_version_from_output("  5.4  x").unwrap(), "5.4");
    assert_eq!(
        DetectLuaVersionError::RunLuaCommand("lua".into(), "gone".into()).to_message(),
        "failed to run lua: gone"
    );
    assert_eq!(version_output(b"out".to_vec(), b"".to_vec()), b"out");
    assert_eq!(version_output(b"out".to_vec(), b"err".to_vec()), b"err");
}

fn file(path: &str, executable: bool) -> BinFile {
    BinFile { path: path.into(), executable }
}

#[test]
fn versioned_binaries_come_first() {
    let files = vec![
        file("/bin/lua", true),
        file("/bin/lua5.1", true),
        file("/bin/luajit", true),
    ];
    assert_eq!(find_lua_executable(&files, "5.1", ""), Some("/bin/lua5.1".into()));
    assert_eq!(find_lua_executable(&files, "5.4", ""), Some("/bin/lua".into()));
    let files = vec![file("/bin/lua5.1", false), file("/bin/luac", true), file("/bin/luajit", true)];
    assert_eq!(find_lua_executable(&files, "5.1", ""), Some("/bin/luajit".into()));
    let files = vec![file("C:/lua.exe", true), file("C:/lua5.1.exe", true)];
    assert_eq!(find_lua_executable(&files, "5.1", ".exe"), Some("C:/lua5.1.exe".into()));
    assert_eq!(find_lua_executable(&vec![file("/bin/luac", true)], "5.1", ""), None);
}

#[test]
fn first_library_is_found() {
    let files: Vec<String> = ["/lib/libm.a", "/lib/liblua5.1.so", "/lib/liblua5.1.a", "/lib/liblua.a"]
        .iter()
        .map(|s| s.to_string())
        .collect();
    assert_eq!(find_lua_lib(&files, &LuaVersion::Lua51, &unix()), Some("/lib/liblua5.1.a".into()));
    assert_eq!(find_lua_lib(&files, &LuaVersion::Lua54, &unix()), Some("/lib/liblua.a".into()));
    assert_eq!(find_lua_lib(&Vec::new(), &LuaVersion::Lua54, &unix()), None);
}

fn info(lib_dir: Option<&str>) -> ExternalDependencyInfo {
    ExternalDependencyInfo {
        include_dir: Some("/usr/include".into()),
        lib_dir: lib_dir.map(|s| s.into()),
        bin_dir: None,
        lib_name: Some("probed".into()),
    }
}

#[test]
fn probing_for_lua() {
    assert_eq!(pkg_name_probes(&LuaVersion::Lua53), ["lua5.3", "lua-5.3"]);
    assert_eq!(pkg_name_probes(&LuaVersion::LuaJIT52), ["luajit"]);
    assert!(find_first(vec![None, None]).is_none());
    let found = find_first(vec![None, Some(info(Some("/x/lib"))), Some(info(None))]).unwrap();
    assert_eq!(found.lib_dir.as_deref(), Some("/x/lib"));
    assert_eq!(LuaInstallation::probed_bin_dir(&found, PathStyle::Unix), Some("/x/bin".into()));
    assert_eq!(LuaInstallation::probed_bin_dir(&info(None), PathStyle::Unix), None);

    let lua = LuaInstallation::probe(
        LuaVersion::Lua53,
        "5.3",
        "",
        Some(found),
        Some(vec![file("/x/bin/lua", true)]),
        Some("lua5.3".into()),
    )
    .unwrap();
    assert_eq!(lua.bin().as_deref(), Some("/x/bin/lua"));
    assert_eq!(lua.dependency_info.lib_name.as_deref(), Some("lua5.3"));
    assert_eq!(lua.includes(), [&"/usr/include".to_string()]);

    let lua = LuaInstallation::probe(
        LuaVersion::Lua53,
        "5.3",
        "",
        Some(info(None)),
        Some(vec![file("/x/bin/lua", true)]),
        Some("lua5.3".into()),
    )
    .unwrap();
    assert_eq!(lua.bin(), &None);
    assert_eq!(lua.dependency_info.lib_name, None);
    assert!(LuaInstallation::probe(LuaVersion::Lua53, "5.3", "", None, None, None).is_none());
}

#[test]
fn installing_lua() {
    assert!(matches!(LuaInstallation::new(None, true, true), NewLua::Installed));
    assert!(matches!(LuaInstallation::new(None, false, true), NewLua::Install));
    assert!(matches!(LuaInstallation::new(None, true, false), NewLua::Install));
    assert_eq!(
        LuaInstallation::root_dir(
            Some("/lua".into()),
            Some("/tree".into()),
            "/data",
            "5.1",
            PathStyle::Unix
        ),
        "/lua"
    );
    let root = |tree: Option<&str>, data: &str, style: PathStyle| {
        LuaInstallation::root_dir(None, tree.map(|tree| tree.into()), data, "5.1", style)
    };
    assert_eq!(root(Some("/tree"), "/data", PathStyle::Unix), "/tree/.lua");
    assert_eq!(root(None, "/data", PathStyle::Unix), "/data/.lua/5.1");
    assert_eq!(root(None, "C:/data", PathStyle::Windows), "C:/data/.lua/5.1");
    let lua = LuaInstallation::install(
        LuaVersion::Lua51,
        "5.1",
        "",
        "/root",
        Some(Some(vec![file("/root/bin/lua", true)])),
        Some("lua".into()),
        PathStyle::Unix,
    );
    assert_eq!(lua.bin().as_deref(), Some("/root/bin/lua"));
    assert_eq!(lua.dependency_info.include_dir.as_deref(), Some("/root/include"));
    assert_eq!(lua.dependency_info.lib_dir.as_deref(), Some("/root/lib"));
    assert_eq!(lua.dependency_info.bin_dir.as_deref(), Some("/root/bin"));
    assert!(matches!(LuaInstallation::new(Some(lua), false, false), NewLua::Probed(_)));
    let lua = LuaInstallation::install(LuaVersion::Lua51, "5.1", "", "/root", None, None, PathStyle::Unix);
    assert_eq!(lua.dependency_info.bin_dir, None);
    assert_eq!(lua.bin(), &None);
}

fn value(variable: Option<Variable>) -> Option<(bool, String)> {
    variable.map(|variable| match variable {
        Variable::Path(path) => (true, path),
        Variable::Text(text) => (false, text),
    })
}

#[test]
fn variables_of_lua() {
    let lua = LuaInstallation::install(
        LuaVersion::Lua51,
        "5.1",
        "",
        "/root",
        Some(Some(vec![file("/root/bin/lua", true)])),
        Some("lua5.1".into()),
        PathStyle::Unix,
    );
    let get = |input: &str| value(lua.get_variable(input, Some("/other/lua".into()), &unix()));
    assert_eq!(get("LUA_INCDIR"), Some((true, "/root/include".into())));
    assert_eq!(get("LUA_LIBDIR"), Some((true, "/root/lib".into())));
    assert_eq!(get("LUA_BINDIR"), Some((true, "/root/bin".into())));
    assert_eq!(get("LUA"), Some((true, "/root/bin/lua".into())));
    assert_eq!(get("LUALIB"), Some((false, "lua5.1.a".into())));
    assert_eq!(get("PATH"), None);
    assert_eq!(
        value(lua.get_variable("LUALIB", None, &msvc())),
        Some((false, "lua5.1".into()))
    );
    let lua = LuaInstallation::install(LuaVersion::Lua51, "5.1", "", "/root", None, None, PathStyle::Unix);
    let get = |input: &str| value(lua.get_variable(input, Some("/other/lua".into()), &unix()));
    assert_eq!(get("LUA_BINDIR"), None);
    assert_eq!(get("LUA"), Some((true, "/other/lua".into())));
    assert_eq!(get("LUALIB"), Some((false, "".into())));
    assert_eq!(lua.lib_link_args(true, vec!["-llua".into()]), Vec::<String>::new());
    assert_eq!(lua.lib_link_args(false, vec!["-llua".into()]), ["-llua"]);
}

#[test]
fn configured_binary_comes_first() {
    let mut lua = LuaInstallation::install(LuaVersion::Lua51, "5.1", "", "/root", None, None, PathStyle::Unix);
    let found = |lua: &LuaInstallation, config: Option<&str>, resolved: Option<&str>| {
        lua.lua_binary_or_config_override(config.map(|s| s.into()), resolved.map(|s| s.into()))
    };
    assert_eq!(found(&lua, None, None), None);
    assert_eq!(found(&lua, None, Some("/usr/bin/lua")), Some("/usr/bin/lua".into()));
    lua.bin = Some("/root/bin/lua".into());
    assert_eq!(found(&lua, None, Some("/usr/bin/lua")), Some("/root/bin/lua".into()));
    assert_eq!(found(&lua, Some("mylua"), Some("/usr/bin/lua")), Some("mylua".into()));
}

fn nothing() -> LuaSearch {
    LuaSearch { probed: None, luajit: None, versioned: None, custom: None, default: None }
}

fn jit() -> LuaBinary {
    LuaBinary::new(LuaVersion::LuaJIT, None)
}

#[test]
fn resolving_the_binary() {
    let all = || LuaSearch {
        probed: Some("/probed".into()),
        luajit: Some("/luajit".into()),
        versioned: Some("/versioned".into()),
        custom: Some("/custom".into()),
        default: None,
    };
    assert_eq!(jit().resolve("jit", all()).unwrap(), "/probed");
    let search = LuaSearch { probed: None, ..all() };
    assert_eq!(jit().resolve("jit", search).unwrap(), "/luajit");
    let search = LuaSearch { probed: None, ..all() };
    let lua = LuaBinary::new(LuaVersion::Lua51, None);
    assert_eq!(lua.to_text("5.1"), "lua 5.1");
    assert_eq!(lua.resolve("5.1", search).unwrap(), "/versioned");
    let custom = LuaBinary::new(LuaVersion::Lua51, Some("mylua".into()));
    assert_eq!(custom.to_text("5.1"), "mylua");
    assert_eq!(custom.resolve("5.1", all()).unwrap(), "/custom");
    let err = LuaBinary::from_path("mylua".into()).resolve("5.1", nothing()).unwrap_err();
    assert_eq!(err.to_message(), "mylua not found on the PATH");
    let err = jit().resolve("jit", nothing()).unwrap_err();
    assert_eq!(err.to_message(), "neither `lua` nor `luajit` found on the PATH");
}

#[test]
fn default_binary_must_have_the_version() {
    let search = |version: Result<InstalledVersion, DetectLuaVersionError>| LuaSearch {
        default: Some(DefaultLua { path: "/usr/bin/lua".into(), version }),
        ..nothing()
    };
    let installed = |matches: bool| Ok(InstalledVersion { text: "5.4.6".into(), matches });
    assert_eq!(jit().resolve("jit", search(installed(true))).unwrap(), "/usr/bin/lua");
    let err = jit().resolve("5.1", search(installed(false))).unwrap_err();
    assert_eq!(
        err.to_message(),
        r#"
/usr/bin/lua -v (= 5.4.6) does not match expected Lua version: 5.1.

Try setting

```toml
[variables]
LUA = "/path/to/lua_binary"
```

in your config, or use `-v LUA=/path/to/lua_binary`.
    "#
    );
    let err = jit()
        .resolve("5.1", search(Err(DetectLuaVersionError::LuaVersion("odd".into()))))
        .unwrap_err();
    assert!(matches!(&err, LuaBinaryError::DetectLuaVersion(_)));
    assert_eq!(err.to_message(), "odd");
    assert_eq!(
        DetectLuaVersionError::PackageVersionParse("bad".into()).to_message(),
        "bad"
    );
}

#[test]
fn installed_lua_is_lua_or_luajit() {
    assert_eq!(installed_lua(Some("a".into()), Some("b".into())), Some("a".into()));
    assert_eq!(installed_lua(None, Some("b".into())), Some("b".into()));
    assert_eq!(installed_lua(None, None), None);
    assert_eq!(
        LuaInstallationError::Build("boom".into()).to_message(),
        "could not find a Lua installation and failed to build Lua from source:\nboom"
    );
    assert_eq!(LuaInstallationError::LuaVersionUnset("unset".into()).to_message(), "unset");
}

fn places(binary: &LuaBinary, found_in: Option<LuaPlace>) -> Vec<LuaPlace> {
    let mut all = vec![binary.first_place()];
    while let Some(place) =
        binary.next_place(all[all.len() - 1], Some(all[all.len() - 1]) == found_in)
    {
        all.push(place);
    }
    all
}

#[test]
fn places_are_searched_until_the_binary_is_found() {
    let lua = LuaBinary::new(LuaVersion::Lua51, None);
    assert_eq!(
        places(&lua, None),
        [LuaPlace::Probed, LuaPlace::Versioned, LuaPlace::Default]
    );
    assert_eq!(
        places(&jit(), None),
        [LuaPlace::Probed, LuaPlace::LuaJit, LuaPlace::Versioned, LuaPlace::Default]
    );
    assert_eq!(places(&jit(), Some(LuaPlace::LuaJit)), [LuaPlace::Probed, LuaPlace::LuaJit]);
    let custom = LuaBinary::from_path("mylua".into());
    assert_eq!(places(&custom, None), [LuaPlace::Custom]);
    assert_eq!(versioned_name("5.1"), "lua5.1");
    let search = LuaSearch { probed: Some("/p".into()), ..nothing() };
    let more = LuaSearch { probed: Some("/p".into()), luajit: Some("/j".into()), ..nothing() };
    assert_eq!(jit().resolve("jit", search).unwrap(), jit().resolve("jit", more).unwrap());
}
