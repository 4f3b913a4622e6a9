use lux_lib::path::{BinPath, PackagePath, Paths, RockDirs};
use lux_lib::run_lua::{
    check_status, detect_lua_module, detect_lux_lua, module_is_found, outcome, Loader, RunLua,
    RunLuaError, SearchEnv,
};
use lux_lib::slash_path::PathStyle;

fn paths(name: &str) -> Paths {
    Paths::new(
        vec![Ok(RockDirs {
            src: format!("/{name}/src"),
            lib: format!("/{name}/lib"),
            bin: format!("/{name}/bin"),
        })],
        "5.1".into(),
        None,
        "so",
        PathStyle::Unix,
    )
    .unwrap()
}

fn run() -> RunLua {
    RunLua {
        root: "/project".into(),
        args: vec!["-i".into()],
        prepend_test_paths: None,
        prepend_build_paths: Some(true),
        disable_loader: None,
        lua_init: Some("x = 1".into()),
        welcome_message: Some("hi".into()),
    }
}

#[test]
fn lua_runs_with_its_search_paths() {
    let command = run().run_lua(
        "/bin/lua".into(),
        &paths("a"),
        true,
        false,
        Some("/usr/bin".into()),
        PathStyle::Unix,
    );
    assert_eq!(command.program, "/bin/lua");
    assert_eq!(command.current_dir, "/project");
    assert_eq!(command.args, ["-i"]);
    assert_eq!(command.path, "/a/bin:/usr/bin");
    assert_eq!(command.lua_path, "/a/src/?.lua;/a/src/?/init.lua");
    assert_eq!(command.lua_cpath, "/a/lib/?.so");
    assert_eq!(
        command.lua_init,
        "print([==[hi]==])\nx = 1\nif _VERSION:find('5.1') then require('lux').loader() end\n        "
    );
    let silent = RunLua {
        lua_init: None,
        welcome_message: None,
        disable_loader: Some(true),
        ..run()
    };
    let command = silent.run_lua(
        "/bin/lua".into(),
        &paths("a"),
        true,
        true,
        None,
        PathStyle::Unix,
    );
    assert_eq!(command.lua_init, "print([==[]==])\n\n\n        ");
    assert_eq!(command.path, "/a/bin:");
}

#[test]
fn loaders_are_loaded_unless_disabled_or_missing() {
    let run = run();
    assert_eq!(run.loader(true, false), Loader::Loaded);
    assert_eq!(run.loader(false, true), Loader::Loaded);
    assert_eq!(run.loader(false, false), Loader::NotFound);
    let disabled = RunLua { disable_loader: Some(true), ..run };
    assert_eq!(disabled.loader(true, true), Loader::Disabled);
    let command = RunLua { disable_loader: None, ..disabled }.run_lua(
        "lua".into(),
        &paths("a"),
        false,
        false,
        None,
        PathStyle::Unix,
    );
    assert!(!command.lua_init.contains("loader"));
    let disabled = RunLua { disable_loader: Some(true), ..self::run() };
    assert!(!disabled.wants_test_paths());
    assert!(disabled.wants_build_paths());
}

#[test]
fn build_paths_come_before_test_paths() {
    let both = RunLua { prepend_test_paths: Some(true), ..run() };
    let all = both.with_paths(paths("a"), Some(paths("t")), Some(paths("b")));
    assert_eq!(all.package_cpath().joined(PathStyle::Unix), "/b/lib/?.so;/t/lib/?.so;/a/lib/?.so");
    assert_eq!(both.with_paths(paths("a"), None, None), paths("a"));
    let build_only = run().with_paths(paths("a"), Some(paths("t")), Some(paths("b")));
    assert_eq!(build_only.package_cpath().joined(PathStyle::Unix), "/b/lib/?.so;/a/lib/?.so");
}

#[test]
fn modules_are_detected_by_the_exit_code() {
    let command = detect_lua_module(
        "lua".into(),
        &PackagePath::from_str("/tmp/lua/?.lua").unwrap(),
        &PackagePath::default(),
        &BinPath::default(),
        "lux",
        PathStyle::Unix,
    );
    assert_eq!(
        command.args,
        ["-e", "if pcall(require, 'lux') then os.exit(0) else os.exit(1) end"]
    );
    assert_eq!(command.lua_path, "/tmp/lua/?.lua");
    assert_eq!(command.lua_cpath, "");
    assert_eq!(command.path, "");
    let env = SearchEnv {
        path: Some("/usr/bin".into()),
        lua_path: Some(";x/?.lua".into()),
        lua_cpath: None,
    };
    let command = detect_lux_lua("lua".into(), &paths("a"), env, PathStyle::Unix);
    assert_eq!(command.lua_path, "/a/src/?.lua;/a/src/?/init.lua;x/?.lua");
    assert_eq!(command.lua_cpath, "/a/lib/?.so;");
    assert_eq!(command.path, "/a/bin:/usr/bin");
    assert_eq!(command.program, "lua");
}

#[test]
fn exit_codes_are_shown() {
    assert!(check_status("lua".into(), true, Some(0)).is_ok());
    for code in [1, 42, 255, 10, 100, i32::MAX, i32::MIN, -1, 0] {
        let err = check_status("lua".into(), false, Some(code)).unwrap_err();
        assert_eq!(err.to_message(), format!("lua exited with non-zero exit code: {code}"));
    }
    let err = check_status("lua".into(), false, None).unwrap_err();
    assert_eq!(err.to_message(), "lua exited with non-zero exit code: unknown");
    assert_eq!(RunLuaError::LuaBinary("x".into()).to_message(), "error running lua: x");
    assert_eq!(
        RunLuaError::LuaCommandFailed { lua_cmd: "lua".into(), source: "gone".into() }
            .to_message(),
        "failed to run lua: gone"
    );
    assert_eq!(RunLuaError::Paths("x".into()).to_message(), "x");
    assert_eq!(RunLuaError::Tree("x".into()).to_message(), "x");
}

#[test]
fn outcomes_of_the_command() {
    assert!(outcome("lua".into(), Ok((true, Some(0)))).is_ok());
    assert!(matches!(
        outcome("lua".into(), Ok((false, Some(3)))),
        Err(RunLuaError::LuaCommandNonZeroExitCode { lua_cmd, exit_code: Some(3) })
            if lua_cmd == "lua"
    ));
    assert!(matches!(
        outcome("lua".into(), Ok((false, None))),
        Err(RunLuaError::LuaCommandNonZeroExitCode { exit_code: None, .. })
    ));
    assert!(matches!(
        outcome("lua".into(), Err("gone".into())),
        Err(RunLuaError::LuaCommandFailed { lua_cmd, source })
            if lua_cmd == "lua" && source == "gone"
    ));
    assert!(module_is_found(Ok(true)));
    assert!(!module_is_found(Ok(false)));
    assert!(!module_is_found(Err("gone".into())));
}
