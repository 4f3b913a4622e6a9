//! The versions of Lua.

use crate::text::copy;
use vstd::prelude::*;

verus! {

/// A version of Lua.
#[derive(Debug, Clone, Copy, PartialEq, Eq, Structural)]
pub enum LuaVersion {
    Lua51,
    Lua52,
    Lua53,
    Lua54,
    Lua55,
    LuaJIT,
    LuaJIT52,
}

/// The version of Lua that this one is compatible with.
pub open spec fn compatible_version(version: LuaVersion) -> Seq<char> {
    match version {
        LuaVersion::Lua51 | LuaVersion::LuaJIT => "5.1"@,
        LuaVersion::Lua52 | LuaVersion::LuaJIT52 => "5.2"@,
        LuaVersion::Lua53 => "5.3"@,
        LuaVersion::Lua54 => "5.4"@,
        LuaVersion::Lua55 => "5.5"@,
    }
}

impl LuaVersion {
    /// Whether this is LuaJIT.
    pub fn is_luajit(&self) -> (r: bool)
        ensures
            r == (self is LuaJIT || self is LuaJIT52),
    {
        match self {
            LuaVersion::LuaJIT | LuaVersion::LuaJIT52 => true,
            _ => false,
        }
    }

    /// The version of Lua that this one is compatible with.
    pub fn version_compatibility_str(&self) -> (r: String)
        ensures
            r@ == compatible_version(*self),
    {
        match self {
            LuaVersion::Lua51 | LuaVersion::LuaJIT => copy("5.1"),
            LuaVersion::Lua52 | LuaVersion::LuaJIT52 => copy("5.2"),
            LuaVersion::Lua53 => copy("5.3"),
            LuaVersion::Lua54 => copy("5.4"),
            LuaVersion::Lua55 => copy("5.5"),
        }
    }
}

/// LuaJIT runs the code of the Lua version that it is compatible with, and only its versions are
/// LuaJIT.
pub proof fn luajit_is_compatible_with_a_lua(version: &LuaVersion, jit: bool, text: String)
    requires
        call_ensures(LuaVersion::is_luajit, (version,), jit),
        call_ensures(LuaVersion::version_compatibility_str, (version,), text),
    ensures
        jit <==> *version == LuaVersion::LuaJIT || *version == LuaVersion::LuaJIT52,
        text@ == "5.1"@ <==> *version == LuaVersion::Lua51 || *version == LuaVersion::LuaJIT,
        text@ == "5.2"@ <==> *version == LuaVersion::Lua52 || *version == LuaVersion::LuaJIT52,
        text@ == "5.3"@ <==> *version == LuaVersion::Lua53,
        text@ == "5.4"@ <==> *version == LuaVersion::Lua54,
        text@ == "5.5"@ <==> *version == LuaVersion::Lua55,
{
    reveal_strlit("5.1");
    reveal_strlit("5.2");
    reveal_strlit("5.3");
    reveal_strlit("5.4");
    reveal_strlit("5.5");
    assert("5.1"@[2] == '1');
    assert("5.2"@[2] == '2');
    assert("5.3"@[2] == '3');
    assert("5.4"@[2] == '4');
    assert("5.5"@[2] == '5');
}

} // verus!
