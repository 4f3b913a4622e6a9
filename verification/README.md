# lux_lib

The logic of a Lua package manager, written in [Verus](https://github.com/verus-lang/verus): what a
rockspec says of the build, which modules a project has, where Lua and its libraries are, in which
paths Lua searches, and which steps are taken to add, install and build rocks.

## Layout

- `src/` is the library. Every function has a contract, and Verus proves it.
  - `text`, `table`, `slash_path`, `path_order`: strings, maps and paths.
  - `lua_value`, `rockspec_value`, `module_spec`, `install_spec`, `build_type`, `build_spec`: what
    `build = { ... }` of a rockspec says.
  - `builtin_build`: the modules of the builtin build.
  - `lua_version`, `lua_installation`, `lua_binary`, `run_lua`, `path`: Lua and its search paths.
  - `package`, `lua_dependency`, `add`, `build_workspace`: packages and their dependencies.
  - `fetch_vendored`, `install_binary_rock`, `gen_luarc`: rocks and the files around them.
- `tests/` runs the library.
- `app/` is what surrounds the library: files, processes, the environment and the formats that
  rockspecs are read from.

## Paths

The library holds paths as text with `/` between the components. `app/` turns the paths of the
operating system into this text and back.

What differs between operating systems takes a `PathStyle`, which `app/` knows. Joining two paths,
the parent of a path, and whether two paths are the same are those of `std::path` on a Unix. For
Windows they take drives and shares into account, as the documentation of `std::path` says: a path
with a drive or a share stands for itself, one that starts at the root stays on the drive, and the
case of a drive makes no difference. A verbatim path, with `\\?\` in front, is read as if it started
with a share. File names and extensions are those of the text behind the last `/`.

## What is trusted

`to_slash_lossy` of `path_slash`, `diff_paths` of `pathdiff` and `String::push` of the standard
library are called through contracts that are believed and not proved. Each of them says in its
comment what it claims.
