use lux_lib::build_type::{BuildBackendRock, BuildType};
use lux_lib::lua_value::DisplayLuaValue;

fn from_json(json: &str) -> BuildType {
    BuildType::from_text(serde_json::from_str(json).unwrap())
}

#[test]
fn deserialize_build_type() {
    let build_type: BuildType = from_json("\"builtin\"");
    assert_eq!(build_type, BuildType::Builtin);
    let build_type: BuildType = from_json("\"module\"");
    assert_eq!(build_type, BuildType::Builtin);
    let build_type: BuildType = from_json("\"make\"");
    assert_eq!(build_type, BuildType::Make);
    let build_type: BuildType = from_json("\"custom_build_backend\"");
    assert_eq!(
        build_type,
        BuildType::LuaRock("custom_build_backend".into())
    );
    let build_type: BuildType = from_json("\"rust-mlua\"");
    assert_eq!(build_type, BuildType::RustMlua);
}

#[test]
fn build_types_are_read_as_they_are_written() {
    for (text, build_type) in [
        ("builtin", BuildType::Builtin),
        ("make", BuildType::Make),
        ("cmake", BuildType::CMake),
        ("command", BuildType::Command),
        ("none", BuildType::NoBuild),
        ("rust-mlua", BuildType::RustMlua),
        ("treesitter-parser", BuildType::TreesitterParser),
        ("source", BuildType::Source),
        ("luarock", BuildType::LuaRock("luarock".into())),
        ("Make", BuildType::LuaRock("Make".into())),
        ("", BuildType::LuaRock("".into())),
    ] {
        assert_eq!(BuildType::from_text(text.into()), build_type);
        assert_eq!(build_type.to_text(), text);
        assert!(
            matches!(build_type.display_lua_value(), DisplayLuaValue::String(shown) if shown == text)
        );
    }
    assert_eq!(BuildType::default(), BuildType::Builtin);
}

#[test]
fn build_backends_that_are_rocks() {
    assert_eq!(
        BuildType::RustMlua.luarocks_build_backend(),
        Some(BuildBackendRock::Requirement("luarocks-build-rust-mlua >= 0.2.6".into()))
    );
    assert_eq!(
        BuildType::TreesitterParser.luarocks_build_backend(),
        Some(BuildBackendRock::Named("luarocks-build-treesitter-parser".into()))
    );
    assert_eq!(BuildType::Builtin.luarocks_build_backend(), None);
    assert_eq!(BuildType::LuaRock("x".into()).luarocks_build_backend(), None);
}
