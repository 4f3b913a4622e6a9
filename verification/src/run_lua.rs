//! Run the `lua` binary with some given arguments.

use crate::path::{
    are_slash_texts, bin_path_is_read_as_joined, is_joinable, is_package_value, joined_list,
    package_path_is_read_as_joined, package_paths, split_list, value_or_empty, BinPath, PackagePath,
    Paths,
};
use crate::slash_path::{
    is_clean, is_slash_text_in, lists_once, unique_paths, unique_paths_list_once, PathStyle,
};
use crate::text::{concat, copy, decimal, decimal_text, join_with};
use vstd::prelude::*;

verus! {

/// Why Lua did not run.
#[derive(Debug)]
pub enum RunLuaError {
    /// The binary was not found, with what was said of that
    LuaBinary(String),
    /// The command could not be started, with what was said of that
    LuaCommandFailed { lua_cmd: String, source: String },
    /// The command failed
    LuaCommandNonZeroExitCode { lua_cmd: String, exit_code: Option<i32> },
    /// There are no search paths, with what was said of that
    Paths(String),
    /// What the tree said
    Tree(String),
}

/// An exit code in decimal digits.
pub open spec fn exit_code_text(exit_code: Option<i32>) -> Seq<char> {
    match exit_code {
        Some(code) => if code < 0 {
            "-"@ + decimal((-code) as nat)
        } else {
            decimal(code as nat)
        },
        None => "unknown"@,
    }
}

impl RunLuaError {
    /// What the error says.
    pub open spec fn message(&self) -> Seq<char> {
        match self {
            RunLuaError::LuaBinary(text) => "error running lua: "@ + text@,
            RunLuaError::LuaCommandFailed { lua_cmd, source } => "failed to run "@ + lua_cmd@
                + ": "@ + source@,
            RunLuaError::LuaCommandNonZeroExitCode { lua_cmd, exit_code } => lua_cmd@
                + " exited with non-zero exit code: "@ + exit_code_text(*exit_code),
            RunLuaError::Paths(text) => text@,
            RunLuaError::Tree(text) => text@,
        }
    }

    /// What the error says.
    pub fn to_message(&self) -> (r: String)
        ensures
            r@ == self.message(),
    {
        match self {
            RunLuaError::LuaBinary(text) => concat("error running lua: ", text.as_str()),
            RunLuaError::LuaCommandFailed { lua_cmd, source } => concat(
                concat(concat("failed to run ", lua_cmd.as_str()).as_str(), ": ").as_str(),
                source.as_str(),
            ),
            RunLuaError::LuaCommandNonZeroExitCode { lua_cmd, exit_code } => concat(
                concat(lua_cmd.as_str(), " exited with non-zero exit code: ").as_str(),
                display_exit_code(*exit_code).as_str(),
            ),
            RunLuaError::Paths(text) => copy(text.as_str()),
            RunLuaError::Tree(text) => copy(text.as_str()),
        }
    }
}

/// An exit code in decimal digits.
fn display_exit_code(exit_code: Option<i32>) -> (r: String)
    ensures
        r@ == exit_code_text(exit_code),
{
    match exit_code {
        Some(code) => if code < 0 {
            concat("-", decimal_text((-(code as i64)) as u32).as_str())
        } else {
            decimal_text(code as u32)
        },
        None => copy("unknown"),
    }
}

/// How Lua is run.
#[derive(Debug)]
pub struct RunLua {
    /// The directory to run it in
    pub root: String,
    pub args: Vec<String>,
    pub prepend_test_paths: Option<bool>,
    pub prepend_build_paths: Option<bool>,
    pub disable_loader: Option<bool>,
    pub lua_init: Option<String>,
    pub welcome_message: Option<String>,
}

/// A command with its environment.
#[derive(Debug)]
pub struct LuaCommand {
    pub program: String,
    pub current_dir: String,
    pub args: Vec<String>,
    /// The value of `PATH`
    pub path: String,
    /// The value of `LUA_PATH`
    pub lua_path: String,
    /// The value of `LUA_CPATH`
    pub lua_cpath: String,
    /// The value of `LUA_INIT`
    pub lua_init: String,
}

/// A command that tells by its exit code whether there is a module.
#[derive(Debug)]
pub struct DetectCommand {
    pub program: String,
    pub args: Vec<String>,
    /// The value of `PATH`
    pub path: String,
    /// The value of `LUA_PATH`
    pub lua_path: String,
    /// The value of `LUA_CPATH`
    pub lua_cpath: String,
}

/// The values of the environment that the search paths are put in front of.
#[derive(Debug)]
pub struct SearchEnv {
    pub path: Option<String>,
    pub lua_path: Option<String>,
    pub lua_cpath: Option<String>,
}

/// What becomes of the loader.
#[derive(Debug, Clone, Copy, PartialEq, Eq, Structural)]
pub enum Loader {
    /// It is not wanted.
    Disabled,
    /// It is wanted and not there.
    NotFound,
    /// It is loaded.
    Loaded,
}

/// The switch is on.
pub open spec fn is_on(switch: Option<bool>) -> bool {
    switch == Some(true)
}

/// Whether the switch is on.
fn switch_is_on(switch: Option<bool>) -> (r: bool)
    ensures
        r == is_on(switch),
{
    match switch {
        Some(on) => on,
        None => false,
    }
}

/// What becomes of the loader, where `lux_lua_found` says whether Lua finds the module and
/// `has_lux_lib_dir` whether its directory is known.
pub open spec fn loader_of(
    disable_loader: Option<bool>,
    lux_lua_found: bool,
    has_lux_lib_dir: bool,
) -> Loader {
    if is_on(disable_loader) {
        Loader::Disabled
    } else if !lux_lua_found && !has_lux_lib_dir {
        Loader::NotFound
    } else {
        Loader::Loaded
    }
}

/// The Lua code that loads the loader.
pub open spec fn loader_code(loader: Loader, version: Seq<char>) -> Seq<char> {
    if loader == Loader::Loaded {
        "if _VERSION:find('"@ + version + "') then require('lux').loader() end"@
    } else {
        Seq::empty()
    }
}

/// The Lua code that runs first: it prints the welcome message, and then the given code and the
/// loader follow.
pub open spec fn init_code(welcome: Seq<char>, code: Seq<char>, loader: Seq<char>) -> Seq<char> {
    "print([==["@ + welcome + "]==])\n"@ + code + "\n"@ + loader + "\n        "@
}

/// The string, or the empty string.
fn unwrap_text(value: Option<String>) -> (r: String)
    ensures
        r@ == value_or_empty(value),
{
    match value {
        Some(value) => value,
        None => {
            let value = String::new();
            assert(value@ == Seq::<char>::empty());
            value
        },
    }
}

/// The search paths with others in front, where the switch is on and there are any.
pub open spec fn with_paths_of(
    switch: Option<bool>,
    other: Option<Paths>,
    paths: (Seq<Seq<char>>, Seq<Seq<char>>, Seq<Seq<char>>),
) -> (Seq<Seq<char>>, Seq<Seq<char>>, Seq<Seq<char>>) {
    match other {
        Some(other) if is_on(switch) => (
            other.src@ + paths.0,
            other.lib@ + paths.1,
            other.bin@ + paths.2,
        ),
        _ => paths,
    }
}

impl RunLua {
    /// Whether the search paths of the tests are put in front.
    pub fn wants_test_paths(&self) -> (r: bool)
        ensures
            r == is_on(self.prepend_test_paths),
    {
        switch_is_on(self.prepend_test_paths)
    }

    /// Whether the search paths of the build are put in front.
    pub fn wants_build_paths(&self) -> (r: bool)
        ensures
            r == is_on(self.prepend_build_paths),
    {
        switch_is_on(self.prepend_build_paths)
    }

    /// The search paths with those of the tests and those of the build in front, where they are
    /// wanted. Those of the build come first.
    pub fn with_paths(&self, paths: Paths, test: Option<Paths>, build: Option<Paths>) -> (r: Paths)
        ensures
            (r.src@, r.lib@, r.bin@) == with_paths_of(
                self.prepend_build_paths,
                build,
                with_paths_of(
                    self.prepend_test_paths,
                    test,
                    (paths.src@, paths.lib@, paths.bin@),
                ),
            ),
            r.version == paths.version,
    {
        let mut paths = paths;
        if let Some(test) = &test {
            if self.wants_test_paths() {
                paths.prepend(test);
            }
        }
        if let Some(build) = &build {
            if self.wants_build_paths() {
                paths.prepend(build);
            }
        }
        paths
    }

    /// What becomes of the loader.
    pub fn loader(&self, lux_lua_found: bool, has_lux_lib_dir: bool) -> (r: Loader)
        ensures
            r == loader_of(self.disable_loader, lux_lua_found, has_lux_lib_dir),
    {
        if switch_is_on(self.disable_loader) {
            Loader::Disabled
        } else if !lux_lua_found && !has_lux_lib_dir {
            Loader::NotFound
        } else {
            Loader::Loaded
        }
    }

    /// The command that runs `lua_cmd` with the search paths, where `path` is the value of `PATH`.
    /// The loader is in it as [`RunLua::loader`] says.
    pub fn run_lua(
        self,
        lua_cmd: String,
        paths: &Paths,
        lux_lua_found: bool,
        has_lux_lib_dir: bool,
        path: Option<String>,
        style: PathStyle,
    ) -> (r: LuaCommand)
        ensures
            r.program == lua_cmd,
            r.current_dir == self.root,
            r.args == self.args,
            r.path@ == joined_list(
                style,
                unique_paths(style, paths.bin@ + split_list(style, value_or_empty(path))),
            ),
            is_package_value(style, paths.src@, r.lua_path@),
            is_package_value(style, paths.lib@, r.lua_cpath@),
            r.lua_init@ == init_code(
                value_or_empty(self.welcome_message),
                value_or_empty(self.lua_init),
                loader_code(
                    loader_of(self.disable_loader, lux_lua_found, has_lux_lib_dir),
                    paths.version@,
                ),
            ),
    {
        let loader = self.loader(lux_lua_found, has_lux_lib_dir);
        let welcome = unwrap_text(self.welcome_message);
        let code = unwrap_text(self.lua_init);
        let loader_init = if loader == Loader::Loaded {
            paths.init()
        } else {
            let empty = String::new();
            assert(empty@ == Seq::<char>::empty());
            empty
        };
        let printed = concat(concat("print([==[", welcome.as_str()).as_str(), "]==])\n");
        let with_code = concat(concat(printed.as_str(), code.as_str()).as_str(), "\n");
        let lua_init = concat(
            concat(with_code.as_str(), loader_init.as_str()).as_str(),
            "\n        ",
        );
        LuaCommand {
            program: lua_cmd,
            current_dir: self.root,
            args: self.args,
            path: paths.path_prepended(path, style).joined(style),
            lua_path: paths.package_path().joined(style),
            lua_cpath: paths.package_cpath().joined(style),
            lua_init,
        }
    }
}

/// The command ran with success, or it is an error that it did not.
pub fn check_status(lua_cmd: String, success: bool, exit_code: Option<i32>) -> (r: Result<
    (),
    RunLuaError,
>)
    ensures
        match r {
            Ok(_) => success,
            Err(err) => !success && err == (RunLuaError::LuaCommandNonZeroExitCode {
                lua_cmd,
                exit_code,
            }),
        },
{
    if success {
        Ok(())
    } else {
        Err(RunLuaError::LuaCommandNonZeroExitCode { lua_cmd, exit_code })
    }
}

/// What became of the command: `child` has whether it ran with success and its exit code, or why it
/// could not be started.
pub fn outcome(lua_cmd: String, child: Result<(bool, Option<i32>), String>) -> (r: Result<
    (),
    RunLuaError,
>)
    ensures
        match (child, r) {
            (Ok((success, _)), Ok(_)) => success,
            (Ok((success, exit_code)), Err(err)) => !success && err == (
            RunLuaError::LuaCommandNonZeroExitCode { lua_cmd, exit_code }),
            (Err(source), Err(err)) => err == (RunLuaError::LuaCommandFailed { lua_cmd, source }),
            (Err(_), Ok(_)) => false,
        },
{
    match child {
        Ok((success, exit_code)) => check_status(lua_cmd, success, exit_code),
        Err(source) => Err(RunLuaError::LuaCommandFailed { lua_cmd, source }),
    }
}

/// Whether Lua found the module: `child` has whether the command ran with success, or why it could
/// not be started. A failure of any kind says that there is no such module.
pub fn module_is_found(child: Result<bool, String>) -> (r: bool)
    ensures
        r == (child == Ok::<bool, String>(true)),
{
    match child {
        Ok(success) => success,
        Err(_) => false,
    }
}

/// The Lua code that tells by its exit code whether there is the module.
pub open spec fn detect_code(module: Seq<char>) -> Seq<char> {
    "if pcall(require, '"@ + module + "') then os.exit(0) else os.exit(1) end"@
}

/// The command that tells whether `lua_cmd` finds the module in the search paths.
pub fn detect_lua_module(
    lua_cmd: String,
    lua_path: &PackagePath,
    lua_cpath: &PackagePath,
    path: &BinPath,
    module: &str,
    style: PathStyle,
) -> (r: DetectCommand)
    ensures
        r.program == lua_cmd,
        r.args@.len() == 2,
        r.args@[0]@ == "-e"@,
        r.args@[1]@ == detect_code(module@),
        r.path@ == joined_list(style, unique_paths(style, path@)),
        is_package_value(style, lua_path@, r.lua_path@),
        is_package_value(style, lua_cpath@, r.lua_cpath@),
{
    let code = concat(
        concat("if pcall(require, '", module).as_str(),
        "') then os.exit(0) else os.exit(1) end",
    );
    let mut args: Vec<String> = Vec::new();
    args.push(copy("-e"));
    args.push(code);
    DetectCommand {
        program: lua_cmd,
        args,
        path: path.joined(style),
        lua_path: lua_path.joined(style),
        lua_cpath: lua_cpath.joined(style),
    }
}

/// The command that tells whether `lua_cmd` finds the module of the loader, with the search paths
/// in front of those of the environment.
pub fn detect_lux_lua(lua_cmd: String, paths: &Paths, env: SearchEnv, style: PathStyle) -> (r:
    DetectCommand)
    ensures
        r.program == lua_cmd,
        r.args@.len() == 2,
        r.args@[0]@ == "-e"@,
        r.args@[1]@ == detect_code("lux"@),
        r.path@ == joined_list(
            style,
            unique_paths(style, paths.bin@ + split_list(style, value_or_empty(env.path))),
        ),
        is_package_value(style, paths.src@ + package_paths(value_or_empty(env.lua_path)), r.lua_path@),
        is_package_value(style, paths.lib@ + package_paths(value_or_empty(env.lua_cpath)), r.lua_cpath@),
{
    let lua_path = paths.package_path_prepended(env.lua_path);
    let lua_cpath = paths.package_cpath_prepended(env.lua_cpath);
    let path = paths.path_prepended(env.path, style);
    detect_lua_module(lua_cmd, &lua_path, &lua_cpath, &path, "lux", style)
}

/// Where the test or the build paths are wanted and given, all their entries of `package.path`,
/// `package.cpath` and `PATH` are entries of the result, in front of those of the tree, which all
/// stay; the build paths come before the test paths. Paths that are not wanted or not given add
/// nothing.
pub proof fn wanted_paths_stand_in_front(
    run: &RunLua,
    paths: Paths,
    test: Option<Paths>,
    build: Option<Paths>,
    r: Paths,
)
    requires
        call_ensures(RunLua::with_paths, (run, paths, test, build), r),
    ensures
        ({
            let with_test = run.prepend_test_paths == Some(true) && test is Some;
            let with_build = run.prepend_build_paths == Some(true) && build is Some;
            &&& with_test && with_build ==> {
                &&& r.src@ == build->0.src@ + test->0.src@ + paths.src@
                &&& r.lib@ == build->0.lib@ + test->0.lib@ + paths.lib@
                &&& r.bin@ == build->0.bin@ + test->0.bin@ + paths.bin@
            }
            &&& with_test && !with_build ==> {
                &&& r.src@ == test->0.src@ + paths.src@
                &&& r.lib@ == test->0.lib@ + paths.lib@
                &&& r.bin@ == test->0.bin@ + paths.bin@
            }
            &&& with_build && !with_test ==> {
                &&& r.src@ == build->0.src@ + paths.src@
                &&& r.lib@ == build->0.lib@ + paths.lib@
                &&& r.bin@ == build->0.bin@ + paths.bin@
            }
            &&& !with_test && !with_build ==> {
                &&& r.src@ == paths.src@
                &&& r.lib@ == paths.lib@
                &&& r.bin@ == paths.bin@
            }
        }),
        r.version == paths.version,
{
    let with_test = run.prepend_test_paths == Some(true) && test is Some;
    let with_build = run.prepend_build_paths == Some(true) && build is Some;
    if with_test && with_build {
        let b = build->0;
        let t = test->0;
        assert(b.src@ + (t.src@ + paths.src@) == b.src@ + t.src@ + paths.src@);
        assert(b.lib@ + (t.lib@ + paths.lib@) == b.lib@ + t.lib@ + paths.lib@);
        assert(b.bin@ + (t.bin@ + paths.bin@) == b.bin@ + t.bin@ + paths.bin@);
    }
}

/// The test and the build paths are wanted exactly if they are asked for.
pub proof fn only_paths_that_are_asked_for_are_wanted(run: &RunLua, test: bool, build: bool)
    requires
        call_ensures(RunLua::wants_test_paths, (run,), test),
        call_ensures(RunLua::wants_build_paths, (run,), build),
    ensures
        test <==> run.prepend_test_paths == Some(true),
        build <==> run.prepend_build_paths == Some(true),
{
}

/// The loader is left out exactly if it is disabled or can be found neither as a module nor in a
/// directory of its own.
pub proof fn loader_is_loaded_where_it_is_found(
    run: &RunLua,
    lux_lua_found: bool,
    has_lux_lib_dir: bool,
    r: Loader,
)
    requires
        call_ensures(RunLua::loader, (run, lux_lua_found, has_lux_lib_dir), r),
    ensures
        r == Loader::Disabled <==> run.disable_loader == Some(true),
        r == Loader::Loaded <==> run.disable_loader != Some(true) && (lux_lua_found
            || has_lux_lib_dir),
        r == Loader::NotFound <==> run.disable_loader != Some(true) && !lux_lua_found
            && !has_lux_lib_dir,
{
}

/// The command runs the given binary in the root of the project with the given arguments. Lua
/// prints the welcome message first, then runs the given code, and the loader's code behind it
/// exactly if it is loaded.
pub proof fn command_runs_what_is_given(
    run: RunLua,
    this: &RunLua,
    lua_cmd: String,
    paths: &Paths,
    lux_lua_found: bool,
    has_lux_lib_dir: bool,
    path: Option<String>,
    style: PathStyle,
    r: LuaCommand,
    loader: Loader,
    init: String,
)
    requires
        call_ensures(
            RunLua::run_lua,
            (run, lua_cmd, paths, lux_lua_found, has_lux_lib_dir, path, style),
            r,
        ),
        *this == run,
        call_ensures(RunLua::loader, (this, lux_lua_found, has_lux_lib_dir), loader),
        call_ensures(Paths::init, (paths,), init),
    ensures
        r.program@ == lua_cmd@,
        r.current_dir@ == run.root@,
        r.args@ == run.args@,
        ({
            let welcome = if run.welcome_message is Some {
                run.welcome_message->0@
            } else {
                ""@
            };
            let code = if run.lua_init is Some {
                run.lua_init->0@
            } else {
                ""@
            };
            let loading = if loader == Loader::Loaded {
                init@
            } else {
                ""@
            };
            r.lua_init@ == "print([==["@ + welcome + "]==])\n"@ + code + "\n"@ + loading
                + "\n        "@
        }),
{
    reveal_strlit("");
    assert(""@ == Seq::<char>::empty());
}

/// Lua and what it starts search in the given paths: `LUA_PATH`, `LUA_CPATH` and `PATH` of the
/// command are read as the entries of `package.path`, of `package.cpath`, and of the given
/// directories and those of the `PATH` behind them, each once and the first one first.
pub proof fn command_searches_in_the_paths(
    run: RunLua,
    lua_cmd: String,
    paths: &Paths,
    lux_lua_found: bool,
    has_lux_lib_dir: bool,
    path: Option<String>,
    style: PathStyle,
    r: LuaCommand,
    texts: (&str, &str, &str),
    src: PackagePath,
    lib: PackagePath,
    bin: BinPath,
    all: BinPath,
)
    requires
        call_ensures(
            RunLua::run_lua,
            (run, lua_cmd, paths, lux_lua_found, has_lux_lib_dir, path, style),
            r,
        ),
        call_ensures(Paths::path_prepended, (paths, path, style), all),
        texts.0@ == r.lua_path@,
        texts.1@ == r.lua_cpath@,
        texts.2@ == r.path@,
        call_ensures(PackagePath::from_str, (texts.0,), Ok::<PackagePath, &'static str>(src)),
        call_ensures(PackagePath::from_str, (texts.1,), Ok::<PackagePath, &'static str>(lib)),
        call_ensures(BinPath::from_str, (texts.2, style), Ok::<BinPath, &'static str>(bin)),
        0 < paths.src@.len(),
        0 < paths.lib@.len(),
        0 < all@.len(),
        forall|i: int|
            0 <= i < paths.src@.len() ==> 0 < (#[trigger] paths.src@[i]).len()
                && !paths.src@[i].contains(';') && (style == PathStyle::Windows ==> is_clean(
                paths.src@[i],
            )),
        forall|i: int|
            0 <= i < paths.lib@.len() ==> 0 < (#[trigger] paths.lib@[i]).len()
                && !paths.lib@[i].contains(';') && (style == PathStyle::Windows ==> is_clean(
                paths.lib@[i],
            )),
        forall|i: int|
            0 <= i < all@.len() ==> (style is Unix ==> !(#[trigger] all@[i]).contains(':')) && (style
                is Windows ==> !all@[i].contains('"')),
    ensures
        lists_once(style, paths.src@, src@),
        src@[0] == paths.src@[0],
        lists_once(style, paths.lib@, lib@),
        lib@[0] == paths.lib@[0],
        lists_once(style, all@, bin@),
        bin@[0] == all@[0],
{
    package_path_is_read_as_joined(style, paths.src@, r.lua_path@);
    package_path_is_read_as_joined(style, paths.lib@, r.lua_cpath@);
    unique_paths_list_once(style, paths.src@);
    unique_paths_list_once(style, paths.lib@);
    unique_paths_list_once(style, all@);
    assert forall|i: int| 0 <= i < all@.len() implies is_joinable(style, #[trigger] all@[i]) by {
        assert(style is Unix ==> !all@[i].contains(':'));
    }
    bin_path_is_read_as_joined(style, all@);
}

/// A run that ended well is a success and any other is none: one that exited otherwise is
/// reported with its binary and exit code, and one that could not be started with its binary and
/// the reason.
pub proof fn only_a_good_end_is_a_success(
    lua_cmd: String,
    success: bool,
    exit_code: Option<i32>,
    source: String,
    status: Result<(), RunLuaError>,
    ended: Result<(), RunLuaError>,
    failed: Result<(), RunLuaError>,
)
    requires
        call_ensures(check_status, (lua_cmd, success, exit_code), status),
        call_ensures(
            outcome,
            (lua_cmd, Ok::<(bool, Option<i32>), String>((success, exit_code))),
            ended,
        ),
        call_ensures(outcome, (lua_cmd, Err::<(bool, Option<i32>), String>(source)), failed),
    ensures
        status is Ok <==> success,
        ended is Ok <==> success,
        failed is Err,
        !success ==> status->Err_0 is LuaCommandNonZeroExitCode
            && status->Err_0->LuaCommandNonZeroExitCode_lua_cmd == lua_cmd
            && status->Err_0->exit_code == exit_code,
        !success ==> ended->Err_0 is LuaCommandNonZeroExitCode
            && ended->Err_0->LuaCommandNonZeroExitCode_lua_cmd == lua_cmd && ended->Err_0->exit_code
            == exit_code,
        failed->Err_0 is LuaCommandFailed,
        failed->Err_0->LuaCommandFailed_lua_cmd == lua_cmd,
        failed->Err_0->source == source,
{
}

/// A module is found exactly if the run that asks for it could be started and ended well.
pub proof fn module_is_found_by_a_good_end(child: Result<bool, String>, r: bool)
    requires
        call_ensures(module_is_found, (child,), r),
    ensures
        child is Err ==> !r,
        child is Ok ==> r == child->Ok_0,
{
}

/// The binary is asked for a module by code that names it, and so it is asked for the library of
/// this project, in the paths of the tree with those of the environment behind them.
pub proof fn module_is_asked_for_by_its_name(
    lua_cmd: String,
    lua_path: &PackagePath,
    lua_cpath: &PackagePath,
    path: &BinPath,
    module: &str,
    style: PathStyle,
    paths: &Paths,
    env: SearchEnv,
    r: DetectCommand,
    own: DetectCommand,
)
    requires
        call_ensures(detect_lua_module, (lua_cmd, lua_path, lua_cpath, path, module, style), r),
        call_ensures(detect_lux_lua, (lua_cmd, paths, env, style), own),
    ensures
        r.program@ == lua_cmd@,
        r.args@.len() == 2,
        r.args@[0]@ == "-e"@,
        r.args@[1]@ == "if pcall(require, '"@ + module@ + "') then os.exit(0) else os.exit(1) end"@,
        own.program@ == lua_cmd@,
        own.args@.len() == 2,
        own.args@[0]@ == "-e"@,
        own.args@[1]@ == "if pcall(require, '"@ + "lux"@
            + "') then os.exit(0) else os.exit(1) end"@,
{
}

/// A binary that is asked for a module searches where it is told to.
pub proof fn module_is_asked_for_in_the_paths(
    lua_cmd: String,
    lua_path: &PackagePath,
    lua_cpath: &PackagePath,
    path: &BinPath,
    module: &str,
    style: PathStyle,
    r: DetectCommand,
    texts: (&str, &str, &str),
    src: PackagePath,
    lib: PackagePath,
    bin: BinPath,
)
    requires
        call_ensures(detect_lua_module, (lua_cmd, lua_path, lua_cpath, path, module, style), r),
        texts.0@ == r.lua_path@,
        texts.1@ == r.lua_cpath@,
        texts.2@ == r.path@,
        call_ensures(PackagePath::from_str, (texts.0,), Ok::<PackagePath, &'static str>(src)),
        call_ensures(PackagePath::from_str, (texts.1,), Ok::<PackagePath, &'static str>(lib)),
        call_ensures(BinPath::from_str, (texts.2, style), Ok::<BinPath, &'static str>(bin)),
        0 < lua_path@.len(),
        0 < lua_cpath@.len(),
        0 < path@.len(),
        forall|i: int|
            0 <= i < lua_path@.len() ==> 0 < (#[trigger] lua_path@[i]).len()
                && !lua_path@[i].contains(';') && (style == PathStyle::Windows ==> is_clean(
                lua_path@[i],
            )),
        forall|i: int|
            0 <= i < lua_cpath@.len() ==> 0 < (#[trigger] lua_cpath@[i]).len()
                && !lua_cpath@[i].contains(';') && (style == PathStyle::Windows ==> is_clean(
                lua_cpath@[i],
            )),
        forall|i: int|
            0 <= i < path@.len() ==> (style is Unix ==> !(#[trigger] path@[i]).contains(':')) && (
            style is Windows ==> !path@[i].contains('"')),
    ensures
        lists_once(style, lua_path@, src@),
        lists_once(style, lua_cpath@, lib@),
        lists_once(style, path@, bin@),
{
    package_path_is_read_as_joined(style, lua_path@, r.lua_path@);
    package_path_is_read_as_joined(style, lua_cpath@, r.lua_cpath@);
    unique_paths_list_once(style, lua_path@);
    unique_paths_list_once(style, lua_cpath@);
    unique_paths_list_once(style, path@);
    assert forall|i: int| 0 <= i < path@.len() implies is_joinable(style, #[trigger] path@[i]) by {
        assert(style is Unix ==> !path@[i].contains(':'));
    }
    bin_path_is_read_as_joined(style, path@);
}

/// The library of this project is looked for in the paths of the tree with those of the
/// environment behind them.
pub proof fn library_is_looked_for_behind_the_environment(
    lua_cmd: String,
    paths: &Paths,
    env: SearchEnv,
    style: PathStyle,
    own: DetectCommand,
    lua_path: PackagePath,
    lua_cpath: PackagePath,
    path: BinPath,
    texts: (&str, &str, &str),
    src: PackagePath,
    lib: PackagePath,
    bin: BinPath,
)
    requires
        call_ensures(detect_lux_lua, (lua_cmd, paths, env, style), own),
        call_ensures(Paths::package_path_prepended, (paths, env.lua_path), lua_path),
        call_ensures(Paths::package_cpath_prepended, (paths, env.lua_cpath), lua_cpath),
        call_ensures(Paths::path_prepended, (paths, env.path, style), path),
        texts.0@ == own.lua_path@,
        texts.1@ == own.lua_cpath@,
        texts.2@ == own.path@,
        call_ensures(PackagePath::from_str, (texts.0,), Ok::<PackagePath, &'static str>(src)),
        call_ensures(PackagePath::from_str, (texts.1,), Ok::<PackagePath, &'static str>(lib)),
        call_ensures(BinPath::from_str, (texts.2, style), Ok::<BinPath, &'static str>(bin)),
        0 < lua_path@.len(),
        0 < lua_cpath@.len(),
        0 < path@.len(),
        forall|i: int|
            0 <= i < lua_path@.len() ==> 0 < (#[trigger] lua_path@[i]).len()
                && !lua_path@[i].contains(';') && (style == PathStyle::Windows ==> is_clean(
                lua_path@[i],
            )),
        forall|i: int|
            0 <= i < lua_cpath@.len() ==> 0 < (#[trigger] lua_cpath@[i]).len()
                && !lua_cpath@[i].contains(';') && (style == PathStyle::Windows ==> is_clean(
                lua_cpath@[i],
            )),
        forall|i: int|
            0 <= i < path@.len() ==> (style is Unix ==> !(#[trigger] path@[i]).contains(':')) && (
            style is Windows ==> !path@[i].contains('"')),
    ensures
        lists_once(style, lua_path@, src@),
        lists_once(style, lua_cpath@, lib@),
        lists_once(style, path@, bin@),
{
    package_path_is_read_as_joined(style, lua_path@, own.lua_path@);
    package_path_is_read_as_joined(style, lua_cpath@, own.lua_cpath@);
    unique_paths_list_once(style, lua_path@);
    unique_paths_list_once(style, lua_cpath@);
    unique_paths_list_once(style, path@);
    assert forall|i: int| 0 <= i < path@.len() implies is_joinable(style, #[trigger] path@[i]) by {
        assert(style is Unix ==> !path@[i].contains(':'));
    }
    bin_path_is_read_as_joined(style, path@);
}

/// What is reported names the binary, and the reason or the exit code: a code is written as its
/// digits, behind a minus if it is negative, and a missing one as `unknown`.
pub proof fn errors_of_a_run_name_the_binary(
    lua_cmd: String,
    source: String,
    exit_code: Option<i32>,
    failed: &RunLuaError,
    ended: &RunLuaError,
    failed_text: String,
    ended_text: String,
    digits: String,
    code: u32,
)
    requires
        *failed == (RunLuaError::LuaCommandFailed { lua_cmd, source }),
        *ended == (RunLuaError::LuaCommandNonZeroExitCode { lua_cmd, exit_code }),
        call_ensures(RunLuaError::to_message, (failed,), failed_text),
        call_ensures(RunLuaError::to_message, (ended,), ended_text),
        call_ensures(decimal_text, (code,), digits),
    ensures
        failed_text@ == "failed to run "@ + lua_cmd@ + ": "@ + source@,
        exit_code is None ==> ended_text@ == lua_cmd@ + " exited with non-zero exit code: "@
            + "unknown"@,
        exit_code is Some && code == exit_code->0 ==> ended_text@ == lua_cmd@
            + " exited with non-zero exit code: "@ + digits@,
        exit_code is Some && 0 < code && code == -exit_code->0 ==> ended_text@ == lua_cmd@
            + " exited with non-zero exit code: "@ + ("-"@ + digits@),
{
}

/// The other errors of a run say what failed.
pub proof fn other_errors_of_a_run_say_what_failed(err: &RunLuaError, r: String)
    requires
        call_ensures(RunLuaError::to_message, (err,), r),
    ensures
        err is LuaBinary ==> r@ == "error running lua: "@ + err->LuaBinary_0@,
        err is Paths ==> r@ == err->Paths_0@,
        err is Tree ==> r@ == err->Tree_0@,
{
}

/// On Unix the variables of a command are the joined paths, whatever they hold; `PATH` is so
/// everywhere.
pub proof fn command_has_the_joined_paths(
    run: RunLua,
    lua_cmd: String,
    paths: &Paths,
    lux_lua_found: bool,
    has_lux_lib_dir: bool,
    path: Option<String>,
    style: PathStyle,
    r: LuaCommand,
    src: &PackagePath,
    lib: &PackagePath,
    all: BinPath,
    bin: &BinPath,
    src_text: String,
    lib_text: String,
    bin_text: String,
)
    requires
        call_ensures(
            RunLua::run_lua,
            (run, lua_cmd, paths, lux_lua_found, has_lux_lib_dir, path, style),
            r,
        ),
        *src == paths.src,
        *lib == paths.lib,
        call_ensures(Paths::path_prepended, (paths, path, style), all),
        *bin == all,
        call_ensures(PackagePath::joined, (src, style), src_text),
        call_ensures(PackagePath::joined, (lib, style), lib_text),
        call_ensures(BinPath::joined, (bin, style), bin_text),
    ensures
        style is Unix ==> r.lua_path@ == src_text@,
        style is Unix ==> r.lua_cpath@ == lib_text@,
        r.path@ == bin_text@,
{
    if style is Unix {
        lemma_one_value(paths.src@, r.lua_path@, src_text@);
        lemma_one_value(paths.lib@, r.lua_cpath@, lib_text@);
    }
}

proof fn lemma_one_value(paths: Seq<Seq<char>>, a: Seq<char>, b: Seq<char>)
    requires
        is_package_value(PathStyle::Unix, paths, a),
        is_package_value(PathStyle::Unix, paths, b),
    ensures
        a == b,
{
    let style = PathStyle::Unix;
    let unique = unique_paths(style, paths);
    let x = choose|x: Seq<Seq<char>>| #[trigger]
        are_slash_texts(style, unique, x) && a == join_with(x, ";"@);
    let y = choose|y: Seq<Seq<char>>| #[trigger]
        are_slash_texts(style, unique, y) && b == join_with(y, ";"@);
    assert forall|i: int| 0 <= i < unique.len() implies x[i] == y[i] by {
        assert(is_slash_text_in(style, unique[i], x[i]));
        assert(is_slash_text_in(style, unique[i], y[i]));
    }
    assert(x == y);
}

/// So it is with a binary that is asked for a module, and for the library of this project.
pub proof fn asked_binary_has_the_joined_paths(
    lua_cmd: String,
    lua_path: &PackagePath,
    lua_cpath: &PackagePath,
    path: &BinPath,
    module: &str,
    style: PathStyle,
    r: DetectCommand,
    texts: (String, String, String),
    paths: &Paths,
    env: SearchEnv,
    own: DetectCommand,
)
    requires
        call_ensures(detect_lua_module, (lua_cmd, lua_path, lua_cpath, path, module, style), r),
        call_ensures(PackagePath::joined, (lua_path, style), texts.0),
        call_ensures(PackagePath::joined, (lua_cpath, style), texts.1),
        call_ensures(BinPath::joined, (path, style), texts.2),
        call_ensures(detect_lux_lua, (lua_cmd, paths, env, style), own),
        call_ensures(Paths::package_path_prepended, (paths, env.lua_path), *lua_path),
        call_ensures(Paths::package_cpath_prepended, (paths, env.lua_cpath), *lua_cpath),
        call_ensures(Paths::path_prepended, (paths, env.path, style), *path),
    ensures
        style is Unix ==> r.lua_path@ == texts.0@ && own.lua_path@ == texts.0@,
        style is Unix ==> r.lua_cpath@ == texts.1@ && own.lua_cpath@ == texts.1@,
        r.path@ == texts.2@,
        own.path@ == texts.2@,
{
    if style is Unix {
        lemma_one_value(lua_path@, r.lua_path@, texts.0@);
        lemma_one_value(lua_path@, own.lua_path@, texts.0@);
        lemma_one_value(lua_cpath@, r.lua_cpath@, texts.1@);
        lemma_one_value(lua_cpath@, own.lua_cpath@, texts.1@);
    }
}

} // verus!
