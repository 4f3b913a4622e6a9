//! The logic of a Lua package manager.

pub mod add;
pub mod build_spec;
pub mod build_type;
pub mod build_workspace;
pub mod builtin_build;
pub mod fetch_vendored;
pub mod gen_luarc;
pub mod install_binary_rock;
pub mod install_spec;
pub mod lua_binary;
pub mod lua_dependency;
pub mod lua_installation;
pub mod lua_value;
pub mod lua_version;
pub mod module_spec;
pub mod package;
pub mod path;
pub mod path_order;
pub mod rockspec_value;
pub mod run_lua;
pub mod slash_path;
pub mod table;
pub mod text;
