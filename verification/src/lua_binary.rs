//! The binary that runs Lua, and the version that it says it has.

use crate::lua_version::LuaVersion;
use crate::slash_path::{is_slash_text, to_slash_lossy};
use crate::text::{
    concat, copy, first_word, first_word_is_unique, is_first_word, is_white_space, occurs_at,
    starts_word, trim_start, trim_start_matches,
};
use vstd::prelude::*;

verus! {

/// Why the version of a Lua binary is not known.
#[derive(Debug)]
pub enum DetectLuaVersionError {
    /// The command, and why it could not be run
    RunLuaCommand(String, String),
    /// The output of the command
    ParseLuaVersion(String),
    /// What was said of the version in the output
    PackageVersionParse(String),
    /// What was said of the version
    LuaVersion(String),
}

impl DetectLuaVersionError {
    /// What the error says.
    pub open spec fn message(&self) -> Seq<char> {
        match self {
            DetectLuaVersionError::RunLuaCommand(command, text) => "failed to run "@ + command@
                + ": "@ + text@,
            DetectLuaVersionError::ParseLuaVersion(output) => {
                "failed to parse Lua version from output: "@ + output@
            },
            DetectLuaVersionError::PackageVersionParse(text) => text@,
            DetectLuaVersionError::LuaVersion(text) => text@,
        }
    }

    /// What the error says.
    pub fn to_message(&self) -> (r: String)
        ensures
            r@ == self.message(),
    {
        match self {
            DetectLuaVersionError::RunLuaCommand(command, text) => concat(
                concat(concat("failed to run ", command.as_str()).as_str(), ": ").as_str(),
                text.as_str(),
            ),
            DetectLuaVersionError::ParseLuaVersion(output) => concat(
                "failed to parse Lua version from output: ",
                output.as_str(),
            ),
            DetectLuaVersionError::PackageVersionParse(text)
            | DetectLuaVersionError::LuaVersion(text) => copy(text.as_str()),
        }
    }
}

/// Why there is no Lua binary.
#[derive(Debug)]
pub enum LuaBinaryError {
    LuaBinaryNotFound,
    DetectLuaVersion(DetectLuaVersionError),
    LuaVersionMismatch { lua_cmd: String, installed_version: String, lua_version: String },
    CustomBinaryNotFound(String),
}

impl LuaBinaryError {
    /// What the error says.
    pub open spec fn message(&self) -> Seq<char> {
        match self {
            LuaBinaryError::LuaBinaryNotFound => {
                "neither `lua` nor `luajit` found on the PATH"@
            },
            LuaBinaryError::DetectLuaVersion(err) => err.message(),
            LuaBinaryError::LuaVersionMismatch { lua_cmd, installed_version, lua_version } => "\n"@
                + lua_cmd@ + " -v (= "@ + installed_version@
                + ") does not match expected Lua version: "@ + lua_version@
                + ".\n\nTry setting\n\n```toml\n[variables]\nLUA = \"/path/to/lua_binary\"\n```\n\nin your config, or use `-v LUA=/path/to/lua_binary`.\n    "@,
            LuaBinaryError::CustomBinaryNotFound(binary) => binary@ + " not found on the PATH"@,
        }
    }

    /// What the error says.
    pub fn to_message(&self) -> (r: String)
        ensures
            r@ == self.message(),
    {
        match self {
            LuaBinaryError::LuaBinaryNotFound => copy(
                "neither `lua` nor `luajit` found on the PATH",
            ),
            LuaBinaryError::DetectLuaVersion(err) => err.to_message(),
            LuaBinaryError::LuaVersionMismatch { lua_cmd, installed_version, lua_version } => {
                let command = concat(concat("\n", lua_cmd.as_str()).as_str(), " -v (= ");
                let installed = concat(
                    concat(command.as_str(), installed_version.as_str()).as_str(),
                    ") does not match expected Lua version: ",
                );
                concat(
                    concat(installed.as_str(), lua_version.as_str()).as_str(),
                    ".\n\nTry setting\n\n```toml\n[variables]\nLUA = \"/path/to/lua_binary\"\n```\n\nin your config, or use `-v LUA=/path/to/lua_binary`.\n    ",
                )
            },
            LuaBinaryError::CustomBinaryNotFound(binary) => concat(
                binary.as_str(),
                " not found on the PATH",
            ),
        }
    }
}

/// Why there is no installation of Lua.
#[derive(Debug)]
pub enum LuaInstallationError {
    /// Why Lua could not be built
    Build(String),
    /// What was said of the missing version
    LuaVersionUnset(String),
}

impl LuaInstallationError {
    /// What the error says.
    pub open spec fn message(&self) -> Seq<char> {
        match self {
            LuaInstallationError::Build(text) => {
                "could not find a Lua installation and failed to build Lua from source:\n"@ + text@
            },
            LuaInstallationError::LuaVersionUnset(text) => text@,
        }
    }

    /// What the error says.
    pub fn to_message(&self) -> (r: String)
        ensures
            r@ == self.message(),
    {
        match self {
            LuaInstallationError::Build(text) => concat(
                "could not find a Lua installation and failed to build Lua from source:\n",
                text.as_str(),
            ),
            LuaInstallationError::LuaVersionUnset(text) => copy(text.as_str()),
        }
    }
}

/// The binary that runs Lua.
#[derive(Debug)]
pub enum LuaBinary {
    /// The regular Lua interpreter.
    Lua { lua_version: LuaVersion },
    /// Custom Lua interpreter.
    Custom(String),
}

/// The `lua` on the `PATH`, and what it says of its version.
#[derive(Debug)]
pub struct DefaultLua {
    pub path: String,
    pub version: Result<InstalledVersion, DetectLuaVersionError>,
}

/// The version of an installed Lua.
#[derive(Debug)]
pub struct InstalledVersion {
    /// The version as it is written
    pub text: String,
    /// Whether it is the version that is asked for
    pub matches: bool,
}

/// What was found in the places where the binary is looked for.
#[derive(Debug)]
pub struct LuaSearch {
    /// The binary of an installation outside this package manager
    pub probed: Option<String>,
    /// The `luajit` on the `PATH`
    pub luajit: Option<String>,
    /// The `lua` with the version in its name on the `PATH`
    pub versioned: Option<String>,
    /// The custom binary on the `PATH`
    pub custom: Option<String>,
    /// The `lua` on the `PATH`
    pub default: Option<DefaultLua>,
}

/// A place where the binary is looked for.
#[derive(Debug, Clone, Copy, PartialEq, Eq, Structural)]
pub enum LuaPlace {
    /// An installation outside this package manager
    Probed,
    /// The `luajit` on the `PATH`
    LuaJit,
    /// The `lua` with the version in its name on the `PATH`
    Versioned,
    /// The `lua` on the `PATH`
    Default,
    /// The custom binary on the `PATH`
    Custom,
}

/// The place where the binary is looked for first.
pub open spec fn place_of(binary: LuaBinary) -> LuaPlace {
    match binary {
        LuaBinary::Lua { .. } => LuaPlace::Probed,
        LuaBinary::Custom(_) => LuaPlace::Custom,
    }
}

/// The place where the binary is looked for where nothing was found in `place`, if there is one.
pub open spec fn place_behind(binary: LuaBinary, place: LuaPlace) -> Option<LuaPlace> {
    match (binary, place) {
        (LuaBinary::Lua { lua_version }, LuaPlace::Probed) => if lua_version is LuaJIT
            || lua_version is LuaJIT52 {
            Some(LuaPlace::LuaJit)
        } else {
            Some(LuaPlace::Versioned)
        },
        (LuaBinary::Lua { .. }, LuaPlace::LuaJit) => Some(LuaPlace::Versioned),
        (LuaBinary::Lua { .. }, LuaPlace::Versioned) => Some(LuaPlace::Default),
        _ => None,
    }
}

/// Something was found in the place.
pub open spec fn is_found(found: LuaSearch, place: LuaPlace) -> bool {
    match place {
        LuaPlace::Probed => found.probed is Some,
        LuaPlace::LuaJit => found.luajit is Some,
        LuaPlace::Versioned => found.versioned is Some,
        LuaPlace::Default => found.default is Some,
        LuaPlace::Custom => found.custom is Some,
    }
}

/// The same was found in the place.
pub open spec fn same_found(a: LuaSearch, b: LuaSearch, place: LuaPlace) -> bool {
    match place {
        LuaPlace::Probed => a.probed == b.probed,
        LuaPlace::LuaJit => a.luajit == b.luajit,
        LuaPlace::Versioned => a.versioned == b.versioned,
        LuaPlace::Default => a.default == b.default,
        LuaPlace::Custom => a.custom == b.custom,
    }
}

/// How many places are left at most.
pub open spec fn places_left(place: LuaPlace) -> nat {
    match place {
        LuaPlace::Probed => 3,
        LuaPlace::LuaJit => 2,
        LuaPlace::Versioned => 1,
        LuaPlace::Default | LuaPlace::Custom => 0,
    }
}

/// The same was found in `place` and, as long as nothing was, in the places behind it.
pub open spec fn same_search(
    binary: LuaBinary,
    a: LuaSearch,
    b: LuaSearch,
    place: LuaPlace,
) -> bool
    decreases places_left(place),
{
    &&& same_found(a, b, place)
    &&& is_found(a, place) || match place_behind(binary, place) {
        Some(behind) => same_search(binary, a, b, behind),
        None => true,
    }
}

/// Where something was found, it makes no difference what there is in the places behind.
pub proof fn later_places_make_no_difference(
    binary: LuaBinary,
    version_name: Seq<char>,
    a: LuaSearch,
    b: LuaSearch,
    r: Result<String, LuaBinaryError>,
)
    requires
        same_search(binary, a, b, place_of(binary)),
    ensures
        is_resolved(binary, version_name, a, r) <==> is_resolved(binary, version_name, b, r),
{
    reveal_with_fuel(same_search, 4);
}

/// The `lua` on the `PATH` is the binary, if it has the version that is asked for.
pub open spec fn is_default_lua_bin(
    version_name: Seq<char>,
    found: Option<DefaultLua>,
    r: Result<String, LuaBinaryError>,
) -> bool {
    match found {
        Some(lua) => match lua.version {
            Ok(version) => if version.matches {
                r == Ok::<String, LuaBinaryError>(lua.path)
            } else {
                &&& r matches Err(
                    LuaBinaryError::LuaVersionMismatch { lua_cmd, installed_version, lua_version },
                )
                &&& is_slash_text(lua.path@, lua_cmd@)
                &&& installed_version == version.text
                &&& lua_version@ == version_name
            },
            Err(err) => r == Err::<String, LuaBinaryError>(LuaBinaryError::DetectLuaVersion(err)),
        },
        None => r matches Err(LuaBinaryError::LuaBinaryNotFound),
    }
}

/// The binary that was found: of an installation outside this package manager, or else the
/// `luajit` for LuaJIT, or else the `lua` with the version in its name, or else the `lua` on the
/// `PATH`. A custom binary has to be on the `PATH`.
pub open spec fn is_resolved(
    binary: LuaBinary,
    version_name: Seq<char>,
    found: LuaSearch,
    r: Result<String, LuaBinaryError>,
) -> bool {
    match binary {
        LuaBinary::Lua { lua_version } => if found.probed is Some {
            r == Ok::<String, LuaBinaryError>(found.probed->0)
        } else if (lua_version is LuaJIT || lua_version is LuaJIT52) && found.luajit is Some {
            r == Ok::<String, LuaBinaryError>(found.luajit->0)
        } else if found.versioned is Some {
            r == Ok::<String, LuaBinaryError>(found.versioned->0)
        } else {
            is_default_lua_bin(version_name, found.default, r)
        },
        LuaBinary::Custom(name) => match found.custom {
            Some(path) => r == Ok::<String, LuaBinaryError>(path),
            None => r == Err::<String, LuaBinaryError>(LuaBinaryError::CustomBinaryNotFound(name)),
        },
    }
}

impl LuaBinary {
    /// The binary for the version, or that of the configuration.
    pub fn new(lua_version: LuaVersion, config_lua: Option<String>) -> (r: LuaBinary)
        ensures
            r == match config_lua {
                Some(lua) => LuaBinary::Custom(lua),
                None => LuaBinary::Lua { lua_version },
            },
    {
        match config_lua {
            Some(lua) => LuaBinary::Custom(lua),
            None => LuaBinary::Lua { lua_version },
        }
    }

    /// The binary at a path.
    pub fn from_path(path: String) -> (r: LuaBinary)
        ensures
            r == LuaBinary::Custom(path),
    {
        LuaBinary::Custom(path)
    }

    /// How the binary is written, where `version_name` is the name of the version.
    pub fn to_text(&self, version_name: &str) -> (r: String)
        ensures
            r@ == match self {
                LuaBinary::Lua { lua_version } => "lua "@ + version_name@,
                LuaBinary::Custom(command) => command@,
            },
    {
        match self {
            LuaBinary::Lua { lua_version: _ } => concat("lua ", version_name),
            LuaBinary::Custom(command) => copy(command.as_str()),
        }
    }

    /// The place where the binary is looked for first.
    pub fn first_place(&self) -> (r: LuaPlace)
        ensures
            r == place_of(*self),
    {
        match self {
            LuaBinary::Lua { lua_version: _ } => LuaPlace::Probed,
            LuaBinary::Custom(_) => LuaPlace::Custom,
        }
    }

    /// The place where the binary is looked for after `place`, unless it was found there.
    pub fn next_place(&self, place: LuaPlace, found: bool) -> (r: Option<LuaPlace>)
        ensures
            r == if found {
                None
            } else {
                place_behind(*self, place)
            },
    {
        if found {
            return None;
        }
        match (self, place) {
            (LuaBinary::Lua { lua_version }, LuaPlace::Probed) => if lua_version.is_luajit() {
                Some(LuaPlace::LuaJit)
            } else {
                Some(LuaPlace::Versioned)
            },
            (LuaBinary::Lua { .. }, LuaPlace::LuaJit) => Some(LuaPlace::Versioned),
            (LuaBinary::Lua { .. }, LuaPlace::Versioned) => Some(LuaPlace::Default),
            _ => None,
        }
    }

    /// The path of the binary, from what was found in the places where it is looked for.
    pub fn resolve(self, version_name: &str, found: LuaSearch) -> (r: Result<
        String,
        LuaBinaryError,
    >)
        ensures
            is_resolved(self, version_name@, found, r),
    {
        match self {
            LuaBinary::Lua { lua_version } => {
                if let Some(path) = found.probed {
                    return Ok(path);
                }
                if lua_version.is_luajit() {
                    if let Some(path) = found.luajit {
                        return Ok(path);
                    }
                }
                match found.versioned {
                    Some(path) => Ok(path),
                    None => detect_default_lua_bin(version_name, found.default),
                }
            },
            LuaBinary::Custom(name) => match found.custom {
                Some(path) => Ok(path),
                None => Err(LuaBinaryError::CustomBinaryNotFound(name)),
            },
        }
    }
}

/// The name of the `lua` with the version in its name.
pub fn versioned_name(version_name: &str) -> (r: String)
    ensures
        r@ == "lua"@ + version_name@,
{
    concat("lua", version_name)
}

/// The `lua` on the `PATH`, if it has the version that is asked for.
pub fn detect_default_lua_bin(version_name: &str, found: Option<DefaultLua>) -> (r: Result<
    String,
    LuaBinaryError,
>)
    ensures
        is_default_lua_bin(version_name@, found, r),
{
    match found {
        Some(lua) => match lua.version {
            Ok(version) => if version.matches {
                Ok(lua.path)
            } else {
                Err(
                    LuaBinaryError::LuaVersionMismatch {
                        lua_cmd: to_slash_lossy(lua.path.as_str()),
                        installed_version: version.text,
                        lua_version: copy(version_name),
                    },
                )
            },
            Err(err) => Err(LuaBinaryError::DetectLuaVersion(err)),
        },
        None => Err(LuaBinaryError::LuaBinaryNotFound),
    }
}

/// The binary whose version is the installed one: `lua`, or else `luajit`.
pub fn installed_lua(lua: Option<String>, luajit: Option<String>) -> (r: Option<String>)
    ensures
        r == if lua is Some {
            lua
        } else {
            luajit
        },
{
    match lua {
        Some(path) => Some(path),
        None => luajit,
    }
}

/// The output that the version stands in. Some versions print it as an error.
pub fn version_output(stdout: Vec<u8>, stderr: Vec<u8>) -> (r: Vec<u8>)
    ensures
        r == if stderr@.len() == 0 {
            stdout
        } else {
            stderr
        },
{
    if stderr.len() == 0 {
        stdout
    } else {
        stderr
    }
}

/// The output without the name of the interpreter in front.
pub open spec fn after_name(output: Seq<char>) -> Seq<char> {
    trim_start(trim_start(output, "Lua"@), "JIT"@)
}

/// The version in the output of a Lua binary: the first word after its name.
pub fn parse_lua_version_from_output(lua_output: &str) -> (r: Result<
    String,
    DetectLuaVersionError,
>)
    ensures
        match r {
            Ok(version) => is_first_word(after_name(lua_output@), version@),
            Err(DetectLuaVersionError::ParseLuaVersion(output)) => output@ == lua_output@
                && forall|i: int|
                0 <= i < after_name(lua_output@).len() ==> is_white_space(
                    #[trigger] after_name(lua_output@)[i],
                ),
            Err(_) => false,
        },
{
    let rest = trim_start_matches(trim_start_matches(lua_output, "Lua").as_str(), "JIT");
    match first_word(rest.as_str()) {
        Some(word) => Ok(word),
        None => Err(DetectLuaVersionError::ParseLuaVersion(copy(lua_output))),
    }
}

/// A configured binary is the one that runs Lua, and one that was not configured is looked for.
pub proof fn configured_binary_is_run(
    lua_version: LuaVersion,
    config_lua: Option<String>,
    r: LuaBinary,
    path: String,
    custom: LuaBinary,
)
    requires
        call_ensures(LuaBinary::new, (lua_version, config_lua), r),
        call_ensures(LuaBinary::from_path, (path,), custom),
    ensures
        config_lua is Some ==> r is Custom && r->Custom_0 == config_lua->0,
        config_lua is None ==> r is Lua && r->lua_version == lua_version,
        custom is Custom,
        custom->Custom_0 == path,
{
}

/// A custom binary is the one that was found for it; without one it is reported by its name.
pub proof fn custom_binary_is_the_found_one(
    name: String,
    version_name: &str,
    found: LuaSearch,
    r: Result<String, LuaBinaryError>,
)
    requires
        call_ensures(LuaBinary::resolve, (LuaBinary::Custom(name), version_name, found), r),
    ensures
        found.custom is Some ==> r is Ok && r->Ok_0 == found.custom->0,
        found.custom is None ==> r is Err && r->Err_0 is CustomBinaryNotFound
            && r->Err_0->CustomBinaryNotFound_0 == name,
{
}

/// The binary of a Lua version is the first one that was found: the probed one, for LuaJIT then
/// `luajit`, then the one with the version in its name, and then the default one, which is taken
/// if its version is the wanted one. `luajit` is no binary of another version.
pub proof fn first_found_binary_is_run(
    lua_version: LuaVersion,
    version_name: &str,
    found: LuaSearch,
    r: Result<String, LuaBinaryError>,
    default: Result<String, LuaBinaryError>,
)
    requires
        call_ensures(LuaBinary::resolve, (LuaBinary::Lua { lua_version }, version_name, found), r),
        call_ensures(detect_default_lua_bin, (version_name, found.default), default),
    ensures
        ({
            let jit = lua_version == LuaVersion::LuaJIT || lua_version == LuaVersion::LuaJIT52;
            &&& found.probed is Some ==> r is Ok && r->Ok_0 == found.probed->0
            &&& found.probed is None && jit && found.luajit is Some ==> r is Ok && r->Ok_0
                == found.luajit->0
            &&& found.probed is None && (!jit || found.luajit is None) && found.versioned is Some
                ==> r is Ok && r->Ok_0 == found.versioned->0
            &&& found.probed is None && (!jit || found.luajit is None) && found.versioned is None
                ==> (r is Ok <==> default is Ok) && (r is Ok ==> r->Ok_0 == default->Ok_0)
        }),
{
}

/// The default binary is taken exactly if there is one and its version is the wanted one. Another
/// version is reported with both versions, a version that could not be read with the reason.
pub proof fn default_binary_has_the_wanted_version(
    version_name: &str,
    found: Option<DefaultLua>,
    r: Result<String, LuaBinaryError>,
)
    requires
        call_ensures(detect_default_lua_bin, (version_name, found), r),
    ensures
        r is Ok <==> found is Some && found->0.version is Ok && found->0.version->Ok_0.matches,
        r is Ok ==> r->Ok_0 == found->0.path,
        found is None ==> r->Err_0 is LuaBinaryNotFound,
        found is Some && found->0.version is Err ==> r->Err_0 is DetectLuaVersion
            && r->Err_0->DetectLuaVersion_0 == found->0.version->Err_0,
        found is Some && found->0.version is Ok && !found->0.version->Ok_0.matches ==> {
            &&& r->Err_0 is LuaVersionMismatch
            &&& is_slash_text(found->0.path@, r->Err_0->lua_cmd@)
            &&& r->Err_0->installed_version@ == found->0.version->Ok_0.text@
            &&& r->Err_0->LuaVersionMismatch_lua_version@ == version_name@
        },
{
}

/// The places are searched in turn, from the first one, until something is found or there is no
/// other: the probed place, `luajit` for LuaJIT alone, the versioned name, and the default. A
/// custom binary is searched in one place.
pub proof fn places_are_searched_in_turn(
    binary: &LuaBinary,
    first: LuaPlace,
    place: LuaPlace,
    found: bool,
    next: Option<LuaPlace>,
)
    requires
        call_ensures(LuaBinary::first_place, (binary,), first),
        call_ensures(LuaBinary::next_place, (binary, place, found), next),
    ensures
        binary is Custom <==> first == LuaPlace::Custom,
        binary is Lua <==> first == LuaPlace::Probed,
        found ==> next is None,
        binary is Custom ==> next is None,
        ({
            let jit = binary->lua_version == LuaVersion::LuaJIT || binary->lua_version
                == LuaVersion::LuaJIT52;
            binary is Lua && !found ==> {
                &&& place == LuaPlace::Probed && jit ==> next == Some(LuaPlace::LuaJit)
                &&& place == LuaPlace::Probed && !jit ==> next == Some(LuaPlace::Versioned)
                &&& place == LuaPlace::LuaJit ==> next == Some(LuaPlace::Versioned)
                &&& place == LuaPlace::Versioned ==> next == Some(LuaPlace::Default)
                &&& place == LuaPlace::Default ==> next is None
            }
        }),
{
}

/// The `lua` on the `PATH` comes before `luajit`, what a binary prints to its error output comes
/// before what it prints otherwise, and the versioned name is `lua` with the version.
pub proof fn lua_comes_before_luajit(
    lua: Option<String>,
    luajit: Option<String>,
    r: Option<String>,
    stdout: Vec<u8>,
    stderr: Vec<u8>,
    output: Vec<u8>,
    version_name: &str,
    name: String,
)
    requires
        call_ensures(installed_lua, (lua, luajit), r),
        call_ensures(version_output, (stdout, stderr), output),
        call_ensures(versioned_name, (version_name,), name),
    ensures
        lua is Some ==> r == lua,
        lua is None ==> r == luajit,
        0 < stderr@.len() ==> output@ == stderr@,
        stderr@.len() == 0 ==> output@ == stdout@,
        name@ == "lua"@ + version_name@,
{
}

proof fn lemma_name_is_trimmed(name: Seq<char>, rest: Seq<char>)
    requires
        0 < name.len(),
        name[0] != ' ',
        0 < rest.len(),
        rest[0] == ' ',
    ensures
        trim_start(name + rest, name) == rest,
        trim_start(rest, name) == rest,
{
    let whole = name + rest;
    assert(!name.is_prefix_of(rest)) by {
        if name.is_prefix_of(rest) {
            assert(rest.subrange(0, name.len() as int)[0] == rest[0]);
        }
    }
    assert(whole.subrange(0, name.len() as int) == name);
    assert(whole.skip(name.len() as int) == rest);
    assert(trim_start(rest, name) == rest);
    assert(trim_start(whole, name) == trim_start(whole.skip(name.len() as int), name));
}

/// The version is the word behind the name: that of `Lua 5.4.6 ...` is `5.4.6`, and so it is with
/// `LuaJIT` and with any version. Whatever is read is a word: it is not empty and holds no white
/// space.
pub proof fn version_is_the_word_behind_the_name(
    lua_output: &str,
    version: Seq<char>,
    rest: Seq<char>,
    r: Result<String, DetectLuaVersionError>,
)
    requires
        call_ensures(parse_lua_version_from_output, (lua_output,), r),
        0 < version.len(),
        forall|i: int| 0 <= i < version.len() ==> !is_white_space(#[trigger] version[i]),
        rest.len() == 0 || is_white_space(rest[0]),
    ensures
        r is Ok ==> 0 < r->Ok_0@.len() && forall|i: int|
            0 <= i < r->Ok_0@.len() ==> !is_white_space(#[trigger] r->Ok_0@[i]),
        r is Err ==> r->Err_0 is ParseLuaVersion && r->Err_0->ParseLuaVersion_0@ == lua_output@,
        lua_output@ == "Lua "@ + version + rest ==> r is Ok && r->Ok_0@ == version,
        lua_output@ == "LuaJIT "@ + version + rest ==> r is Ok && r->Ok_0@ == version,
{
    reveal_strlit("Lua");
    reveal_strlit("JIT");
    reveal_strlit("Lua ");
    reveal_strlit("LuaJIT ");
    let text = lua_output@;
    let behind = seq![' '] + version + rest;
    if text == "Lua "@ + version + rest || text == "LuaJIT "@ + version + rest {
        assert(behind[0] == ' ');
        lemma_name_is_trimmed("Lua"@, behind);
        lemma_name_is_trimmed("JIT"@, behind);
        if text == "Lua "@ + version + rest {
            assert(text == "Lua"@ + behind);
        } else {
            let jit = "JIT"@ + behind;
            assert(text == "Lua"@ + jit);
            assert(text.subrange(0, 3) == "Lua"@);
            assert(text.skip(3) == jit);
            assert(!"Lua"@.is_prefix_of(jit)) by {
                if "Lua"@.is_prefix_of(jit) {
                    assert(jit.subrange(0, 3)[0] == 'J');
                }
            }
            assert(trim_start(jit, "Lua"@) == jit);
            assert(trim_start(text, "Lua"@) == jit);
        }
        assert(after_name(text) == behind);
        assert(behind.subrange(1, 1int + version.len()) == version);
        assert(occurs_at(behind, version, 1));
        assert forall|i: int| 0 <= i < 1 implies is_white_space(#[trigger] behind[i]) by {}
        if 1 + version.len() < behind.len() {
            assert(behind[1int + version.len()] == rest[0]);
        }
        assert(starts_word(behind, 1, version));
        assert(is_first_word(behind, version));
        if r is Ok {
            first_word_is_unique(behind, version, r->Ok_0@);
        } else {
            assert(!is_white_space(version[0]));
            assert(behind[1] == version[0]);
        }
    }
}

/// An error of the version says what was run or read.
pub proof fn version_errors_say_what_failed(err: &DetectLuaVersionError, r: String)
    requires
        call_ensures(DetectLuaVersionError::to_message, (err,), r),
    ensures
        err is RunLuaCommand ==> r@ == "failed to run "@ + err->RunLuaCommand_0@ + ": "@
            + err->RunLuaCommand_1@,
        err is ParseLuaVersion ==> r@ == "failed to parse Lua version from output: "@
            + err->ParseLuaVersion_0@,
        err is PackageVersionParse ==> r@ == err->PackageVersionParse_0@,
        err is LuaVersion ==> r@ == err->LuaVersion_0@,
{
}

/// An error of the binary says which one is missing, or which versions do not match and what helps.
pub proof fn binary_errors_say_what_is_missing(err: &LuaBinaryError, r: String)
    requires
        call_ensures(LuaBinaryError::to_message, (err,), r),
    ensures
        err is LuaBinaryNotFound ==> r@ == "neither `lua` nor `luajit` found on the PATH"@,
        err is CustomBinaryNotFound ==> r@ == err->CustomBinaryNotFound_0@ + " not found on the PATH"@,
        err is LuaVersionMismatch ==> r@ == "\n"@ + err->lua_cmd@ + " -v (= "@ + err->installed_version@
            + ") does not match expected Lua version: "@ + err->LuaVersionMismatch_lua_version@
            + ".\n\nTry setting\n\n```toml\n[variables]\nLUA = \"/path/to/lua_binary\"\n```\n\nin your config, or use `-v LUA=/path/to/lua_binary`.\n    "@,
{
}

/// An error of the installation says why Lua could not be built, or that its version is not set.
pub proof fn installation_errors_say_what_failed(err: &LuaInstallationError, r: String)
    requires
        call_ensures(LuaInstallationError::to_message, (err,), r),
    ensures
        err is Build ==> r@ == "could not find a Lua installation and failed to build Lua from source:\n"@
            + err->Build_0@,
        err is LuaVersionUnset ==> r@ == err->LuaVersionUnset_0@,
{
}

/// An error of the version of a binary says what that error says. A binary is written as its
/// command, or as `lua` with the version.
pub proof fn binary_is_written_as_its_command(
    err: &LuaBinaryError,
    inner: &DetectLuaVersionError,
    r: String,
    of_inner: String,
    binary: &LuaBinary,
    version_name: &str,
    text: String,
)
    requires
        *err is DetectLuaVersion,
        *inner == err->DetectLuaVersion_0,
        call_ensures(LuaBinaryError::to_message, (err,), r),
        call_ensures(DetectLuaVersionError::to_message, (inner,), of_inner),
        call_ensures(LuaBinary::to_text, (binary, version_name), text),
    ensures
        r@ == of_inner@,
        binary is Custom ==> text@ == binary->Custom_0@,
        binary is Lua ==> text@ == "lua "@ + version_name@,
{
}

/// The version is the first word of what is left of the output without the names in front.
pub proof fn version_is_the_first_word_left(
    lua_output: &str,
    parts: (String, String),
    texts_of: (&str, &str),
    word: Option<String>,
    r: Result<String, DetectLuaVersionError>,
)
    requires
        call_ensures(parse_lua_version_from_output, (lua_output,), r),
        call_ensures(trim_start_matches, (lua_output, "Lua"), parts.0),
        texts_of.0@ == parts.0@,
        call_ensures(trim_start_matches, (texts_of.0, "JIT"), parts.1),
        texts_of.1@ == parts.1@,
        call_ensures(first_word, (texts_of.1,), word),
    ensures
        r is Ok <==> word is Some,
        r is Ok ==> r->Ok_0@ == word->0@,
{
    let args = (texts_of.1,);
    assert(args.0@ == after_name(lua_output@));
    let rest = after_name(lua_output@);
    if r is Ok && word is Some {
        first_word_is_unique(rest, r->Ok_0@, word->0@);
    }
    if r is Ok && word is None {
        lemma_word_is_no_white_space(rest, r->Ok_0@);
    }
    if r is Err && word is Some {
        lemma_word_is_no_white_space(rest, word->0@);
    }
}

proof fn lemma_word_is_no_white_space(s: Seq<char>, word: Seq<char>)
    requires
        is_first_word(s, word),
    ensures
        exists|i: int| 0 <= i < s.len() && !is_white_space(#[trigger] s[i]),
{
    let from = choose|from: int| #[trigger] starts_word(s, from, word);
    assert(s.subrange(from, from + word.len())[0] == s[from]);
    assert(word[0] == s[from]);
    assert(!is_white_space(word[0]));
}

} // verus!
