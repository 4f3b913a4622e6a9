//! The value of `build.type` in a rockspec.

use crate::lua_value::{shows_text, DisplayLuaValue};
use crate::text::{copy, same_text};
use vstd::prelude::*;

verus! {

/// The value of `build.type`.
#[derive(Debug, PartialEq, Clone)]
pub enum BuildType {
    /// "builtin" or "module"
    Builtin,
    /// "make"
    Make,
    /// "cmake"
    CMake,
    /// "command"
    Command,
    /// "none"
    NoBuild,
    /// external Lua rock
    LuaRock(String),
    /// "rust-mlua"
    RustMlua,
    /// "treesitter-parser"
    TreesitterParser,
    /// "source"
    Source,
}

/// The rock that provides a build backend.
#[derive(Debug, PartialEq, Clone)]
pub enum BuildBackendRock {
    /// A requirement on a rock and its version
    Requirement(String),
    /// Any version of the rock with this name
    Named(String),
}

/// The text is the name of a build type.
pub open spec fn is_build_type_name(text: Seq<char>) -> bool {
    ||| text == "builtin"@
    ||| text == "module"@
    ||| text == "make"@
    ||| text == "cmake"@
    ||| text == "command"@
    ||| text == "none"@
    ||| text == "rust-mlua"@
    ||| text == "treesitter-parser"@
    ||| text == "source"@
}

/// The text stands for the build type. A text that names none stands for an external Lua rock.
pub open spec fn says_build_type(text: Seq<char>, build_type: BuildType) -> bool {
    match build_type {
        BuildType::Builtin => text == "builtin"@ || text == "module"@,
        BuildType::Make => text == "make"@,
        BuildType::CMake => text == "cmake"@,
        BuildType::Command => text == "command"@,
        BuildType::NoBuild => text == "none"@,
        BuildType::LuaRock(name) => name@ == text && !is_build_type_name(text),
        BuildType::RustMlua => text == "rust-mlua"@,
        BuildType::TreesitterParser => text == "treesitter-parser"@,
        BuildType::Source => text == "source"@,
    }
}

/// How the build type is written.
pub open spec fn build_type_text(build_type: BuildType) -> Seq<char> {
    match build_type {
        BuildType::Builtin => "builtin"@,
        BuildType::Make => "make"@,
        BuildType::CMake => "cmake"@,
        BuildType::Command => "command"@,
        BuildType::NoBuild => "none"@,
        BuildType::LuaRock(name) => name@,
        BuildType::RustMlua => "rust-mlua"@,
        BuildType::TreesitterParser => "treesitter-parser"@,
        BuildType::Source => "source"@,
    }
}

/// A build type is read as it was written, unless it is an external Lua rock with the name of a
/// build type.
pub proof fn build_type_is_read_as_written(build_type: BuildType)
    requires
        build_type matches BuildType::LuaRock(name) ==> !is_build_type_name(name@),
    ensures
        says_build_type(build_type_text(build_type), build_type),
{
}

/// A build type is written as it was read, except that `module` is written `builtin`.
pub proof fn build_type_is_written_as_read(text: Seq<char>, build_type: BuildType)
    requires
        says_build_type(text, build_type),
    ensures
        build_type_text(build_type) == if text == "module"@ {
            "builtin"@
        } else {
            text
        },
{
    reveal_strlit("module");
    reveal_strlit("make");
    reveal_strlit("cmake");
    reveal_strlit("command");
    reveal_strlit("none");
    reveal_strlit("rust-mlua");
    reveal_strlit("treesitter-parser");
    reveal_strlit("source");
    assert("module"@ != "source"@) by {
        assert("module"@[0] != "source"@[0]);
    }
}

impl Default for BuildType {
    /// The builtin build.
    fn default() -> (r: BuildType)
        ensures
            r is Builtin,
    {
        BuildType::Builtin
    }
}

impl BuildType {
    /// The build type that the text stands for.
    pub fn from_text(text: String) -> (r: BuildType)
        ensures
            says_build_type(text@, r),
    {
        let s = text.as_str();
        if same_text(s, "builtin") || same_text(s, "module") {
            BuildType::Builtin
        } else if same_text(s, "make") {
            BuildType::Make
        } else if same_text(s, "cmake") {
            BuildType::CMake
        } else if same_text(s, "command") {
            BuildType::Command
        } else if same_text(s, "none") {
            BuildType::NoBuild
        } else if same_text(s, "rust-mlua") {
            BuildType::RustMlua
        } else if same_text(s, "treesitter-parser") {
            BuildType::TreesitterParser
        } else if same_text(s, "source") {
            BuildType::Source
        } else {
            BuildType::LuaRock(text)
        }
    }

    /// How the build type is written.
    pub fn to_text(&self) -> (r: String)
        ensures
            r@ == build_type_text(*self),
    {
        match self {
            BuildType::Builtin => copy("builtin"),
            BuildType::Make => copy("make"),
            BuildType::CMake => copy("cmake"),
            BuildType::Command => copy("command"),
            BuildType::NoBuild => copy("none"),
            BuildType::LuaRock(name) => copy(name.as_str()),
            BuildType::RustMlua => copy("rust-mlua"),
            BuildType::TreesitterParser => copy("treesitter-parser"),
            BuildType::Source => copy("source"),
        }
    }

    /// The build type as a Lua value.
    pub fn display_lua_value(&self) -> (r: DisplayLuaValue)
        ensures
            shows_text(r, build_type_text(*self)),
    {
        DisplayLuaValue::String(self.to_text())
    }

    /// The rock that provides the build backend, where luarocks needs one.
    pub fn luarocks_build_backend(&self) -> (r: Option<BuildBackendRock>)
        ensures
            match self {
                BuildType::RustMlua => r matches Some(BuildBackendRock::Requirement(text)) && text@
                    == "luarocks-build-rust-mlua >= 0.2.6"@,
                BuildType::TreesitterParser => r matches Some(BuildBackendRock::Named(name))
                    && name@ == "luarocks-build-treesitter-parser"@,
                _ => r is None,
            },
    {
        match self {
            BuildType::Builtin
            | BuildType::Make
            | BuildType::CMake
            | BuildType::Command
            | BuildType::NoBuild
            | BuildType::LuaRock(_)
            | BuildType::Source => None,
            BuildType::RustMlua => Some(
                BuildBackendRock::Requirement(copy("luarocks-build-rust-mlua >= 0.2.6")),
            ),
            BuildType::TreesitterParser => Some(
                BuildBackendRock::Named(copy("luarocks-build-treesitter-parser")),
            ),
        }
    }
}

/// A build type is named by its text, and `module` by the same type as `builtin`. Any other text
/// names a rock that builds, and stays as it is.
pub proof fn build_type_is_named_by_its_text(text: String, r: BuildType)
    requires
        call_ensures(BuildType::from_text, (text,), r),
    ensures
        r is Builtin <==> text@ == "builtin"@ || text@ == "module"@,
        r is Make <==> text@ == "make"@,
        r is CMake <==> text@ == "cmake"@,
        r is Command <==> text@ == "command"@,
        r is NoBuild <==> text@ == "none"@,
        r is RustMlua <==> text@ == "rust-mlua"@,
        r is TreesitterParser <==> text@ == "treesitter-parser"@,
        r is Source <==> text@ == "source"@,
        r is LuaRock ==> r->LuaRock_0@ == text@,
{
    reveal_strlit("builtin");
    reveal_strlit("module");
    reveal_strlit("make");
    reveal_strlit("cmake");
    reveal_strlit("command");
    reveal_strlit("none");
    reveal_strlit("rust-mlua");
    reveal_strlit("treesitter-parser");
    reveal_strlit("source");
    assert("builtin"@.len() == 7 && "command"@.len() == 7);
    assert("module"@.len() == 6 && "source"@.len() == 6);
    assert("make"@.len() == 4 && "none"@.len() == 4);
    assert("cmake"@.len() == 5);
    assert("rust-mlua"@.len() == 9);
    assert("treesitter-parser"@.len() == 17);
    assert("module"@[0] == 'm');
    assert("source"@[0] == 's');
    assert("make"@[0] == 'm');
    assert("none"@[0] == 'n');
    assert("builtin"@[0] == 'b');
    assert("command"@[0] == 'c');
}

/// A build type that was written is read as itself, unless it is a rock with the name of another
/// build type. One that was read is written as its text, and `module` as `builtin`. What is
/// displayed is what is written.
pub proof fn written_build_type_is_read_back(
    build_type: &BuildType,
    written: String,
    read: BuildType,
    text: String,
    again: BuildType,
    this: &BuildType,
    out: String,
    shown: DisplayLuaValue,
)
    requires
        call_ensures(BuildType::to_text, (build_type,), written),
        call_ensures(BuildType::from_text, (written,), read),
        call_ensures(BuildType::from_text, (text,), again),
        *this == again,
        call_ensures(BuildType::to_text, (this,), out),
        call_ensures(BuildType::display_lua_value, (build_type,), shown),
    ensures
        !(*build_type is LuaRock) ==> read == *build_type,
        *build_type is LuaRock ==> written@ == build_type->LuaRock_0@,
        text@ == "module"@ ==> out@ == "builtin"@,
        text@ != "module"@ ==> out@ == text@,
        shown is String,
        shown->String_0@ == written@,
{
    build_type_is_named_by_its_text(written, read);
    build_type_is_written_as_read(text@, again);
}

/// Only the rust and the treesitter backend need a rock that builds, and they need their own.
pub proof fn backends_need_their_rock(build_type: &BuildType, r: Option<BuildBackendRock>)
    requires
        call_ensures(BuildType::luarocks_build_backend, (build_type,), r),
    ensures
        r is Some <==> *build_type is RustMlua || *build_type is TreesitterParser,
        *build_type is RustMlua ==> r->0 is Requirement && r->0->Requirement_0@
            == "luarocks-build-rust-mlua >= 0.2.6"@,
        *build_type is TreesitterParser ==> r->0 is Named && r->0->Named_0@
            == "luarocks-build-treesitter-parser"@,
{
}

/// A build type that is not named is the builtin one.
pub proof fn unnamed_build_type_is_builtin(r: BuildType)
    requires
        call_ensures(<BuildType as Default>::default, (), r),
    ensures
        r is Builtin,
{
}

} // verus!
