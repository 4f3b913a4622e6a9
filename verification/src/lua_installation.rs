//! Where Lua is installed, and which binary runs it.

use crate::lua_version::{compatible_version, LuaVersion};
use crate::slash_path::{
    extension, file_name, is_slash_text, joined_in, parent_in, path_extension, path_file_name,
    path_join_in, path_parent_in, to_slash_lossy, PathStyle,
};
use crate::text::{
    concat, contains, contains_text, copy, occurs_at, opt_text, remove_char, same_text, starts_with,
    texts, trim_start, trim_start_matches, without,
};
use vstd::prelude::*;

verus! {

/// How the platform names static libraries.
#[derive(Debug)]
pub struct LibPlatform {
    /// The extension of a static library
    pub lib_extension: String,
    /// Whether this is a Unix
    pub unix: bool,
    /// Whether the compiler is that of MSVC
    pub msvc: bool,
    /// How paths are read
    pub path_style: PathStyle,
}

/// A file in a directory for binaries.
#[derive(Debug)]
pub struct BinFile {
    pub path: String,
    pub executable: bool,
}

/// What is known of a dependency outside Lua.
#[derive(Debug)]
pub struct ExternalDependencyInfo {
    pub include_dir: Option<String>,
    pub lib_dir: Option<String>,
    pub bin_dir: Option<String>,
    pub lib_name: Option<String>,
}

/// An installation of Lua.
#[derive(Debug)]
pub struct LuaInstallation {
    pub version: LuaVersion,
    pub dependency_info: ExternalDependencyInfo,
    /// Binary to the Lua executable, if present
    pub bin: Option<String>,
}

/// The file is executable and has this name.
pub open spec fn is_binary(file: BinFile, name: Seq<char>) -> bool {
    file.executable && file_name(file.path@) == Some(name)
}

/// The file is executable and has a name of a Lua binary without a version.
pub open spec fn is_plain_binary(file: BinFile) -> bool {
    ||| is_binary(file, "lua"@)
    ||| is_binary(file, "luajit"@)
    ||| is_binary(file, "lua.exe"@)
    ||| is_binary(file, "luajit.exe"@)
}

/// The name of the Lua binary with its version.
pub open spec fn versioned_binary(version_name: Seq<char>, exe_suffix: Seq<char>) -> Seq<char> {
    "lua"@ + version_name + exe_suffix
}

/// The file at `i` is the first one with the name.
pub open spec fn first_binary(files: Seq<BinFile>, name: Seq<char>, i: int) -> bool {
    &&& 0 <= i < files.len()
    &&& is_binary(files[i], name)
    &&& forall|j: int| 0 <= j < i ==> !is_binary(#[trigger] files[j], name)
}

/// The file at `i` is the first one with a name of a Lua binary without a version.
pub open spec fn first_plain_binary(files: Seq<BinFile>, i: int) -> bool {
    &&& 0 <= i < files.len()
    &&& is_plain_binary(files[i])
    &&& forall|j: int| 0 <= j < i ==> !is_plain_binary(#[trigger] files[j])
}

/// The Lua binary among the files. One with a version in its name comes before one without.
pub open spec fn is_lua_executable(
    files: Seq<BinFile>,
    version_name: Seq<char>,
    exe_suffix: Seq<char>,
    bin: Option<Seq<char>>,
) -> bool {
    let name = versioned_binary(version_name, exe_suffix);
    match bin {
        Some(path) => {
            ||| exists|i: int| first_binary(files, name, i) && path == (#[trigger] files[i]).path@
            ||| {
                &&& forall|i: int| 0 <= i < files.len() ==> !is_binary(#[trigger] files[i], name)
                &&& exists|i: int|
                    first_plain_binary(files, i) && path == (#[trigger] files[i]).path@
            }
        },
        None => forall|i: int|
            0 <= i < files.len() ==> !is_binary(#[trigger] files[i], name) && !is_plain_binary(
                files[i],
            ),
    }
}

/// Whether the file is executable and has this name.
fn has_binary_name(file: &BinFile, name: &str) -> (r: bool)
    ensures
        r == is_binary(*file, name@),
{
    if file.executable {
        match path_file_name(file.path.as_str()) {
            Some(found) => same_text(found.as_str(), name),
            None => false,
        }
    } else {
        false
    }
}

/// The Lua binary among the files of a directory.
pub fn find_lua_executable(files: &Vec<BinFile>, version_name: &str, exe_suffix: &str) -> (r: Option<
    String,
>)
    ensures
        is_lua_executable(files@, version_name@, exe_suffix@, opt_text(r)),
{
    let name = concat(concat("lua", version_name).as_str(), exe_suffix);
    let mut i: usize = 0;
    while i < files.len()
        invariant
            i <= files@.len(),
            name@ == versioned_binary(version_name@, exe_suffix@),
            forall|k: int| 0 <= k < i ==> !is_binary(#[trigger] files@[k], name@),
        decreases files@.len() - i,
    {
        if has_binary_name(&files[i], name.as_str()) {
            assert(first_binary(files@, name@, i as int));
            return Some(copy(files[i].path.as_str()));
        }
        i = i + 1;
    }
    let mut i: usize = 0;
    while i < files.len()
        invariant
            i <= files@.len(),
            name@ == versioned_binary(version_name@, exe_suffix@),
            forall|k: int| 0 <= k < files@.len() ==> !is_binary(#[trigger] files@[k], name@),
            forall|k: int| 0 <= k < i ==> !is_plain_binary(#[trigger] files@[k]),
        decreases files@.len() - i,
    {
        let file = &files[i];
        if has_binary_name(file, "lua") || has_binary_name(file, "luajit") || has_binary_name(
            file,
            "lua.exe",
        ) || has_binary_name(file, "luajit.exe") {
            assert(first_plain_binary(files@, i as int));
            return Some(copy(file.path.as_str()));
        }
        i = i + 1;
    }
    None
}

/// Where there is a binary with the version in its name, the Lua binary is one of them.
pub proof fn versioned_binary_comes_first(
    files: Seq<BinFile>,
    version_name: Seq<char>,
    exe_suffix: Seq<char>,
    bin: Option<Seq<char>>,
    i: int,
)
    requires
        is_lua_executable(files, version_name, exe_suffix, bin),
        0 <= i < files.len(),
        is_binary(files[i], versioned_binary(version_name, exe_suffix)),
    ensures
        bin is Some,
        file_name(bin->0) == Some(versioned_binary(version_name, exe_suffix)),
{
}

/// On a Unix `lib` in front of a name makes no difference.
pub proof fn lib_prefix_makes_no_difference(
    name: Seq<char>,
    version: LuaVersion,
    platform: LibPlatform,
)
    requires
        platform.unix,
    ensures
        is_lib_name("lib"@ + name, version, platform) == is_lib_name(name, version, platform),
{
    reveal_strlit("lib");
    let longer = "lib"@ + name;
    assert(longer.subrange(0, 3) == "lib"@);
    assert(longer.skip(3) == name);
}

/// The name without `lib` in front, on a Unix.
pub open spec fn bare_name(name: Seq<char>, platform: LibPlatform) -> Seq<char> {
    if platform.unix {
        trim_start(name, "lib"@)
    } else {
        name
    }
}

/// The name is `prefix` with the extension of a static library.
pub open spec fn is_plain_lib(name: Seq<char>, prefix: Seq<char>, platform: LibPlatform) -> bool {
    name == prefix + "."@ + platform.lib_extension@
}

/// The name has the version in it. With MSVC it must have its dot.
pub open spec fn names_version(
    name: Seq<char>,
    version: LuaVersion,
    platform: LibPlatform,
) -> bool {
    ||| contains_text(name, compatible_version(version))
    ||| !platform.msvc && contains_text(name, without(compatible_version(version), '.'))
}

/// The name is that of a static library of Lua: `lua`, or `luajit` for LuaJIT, alone or with the
/// version.
pub open spec fn is_lib_name(name: Seq<char>, version: LuaVersion, platform: LibPlatform) -> bool {
    let bare = bare_name(name, platform);
    let jit = version is LuaJIT || version is LuaJIT52;
    ||| is_plain_lib(bare, "lua"@, platform)
    ||| jit && is_plain_lib(bare, "luajit"@, platform)
    ||| ("lua"@.is_prefix_of(bare) || jit && "luajit"@.is_prefix_of(bare)) && names_version(
        bare,
        version,
        platform,
    )
}

/// Whether the name is `prefix` with the extension of a static library.
fn has_plain_lib_name(name: &str, prefix: &str, platform: &LibPlatform) -> (r: bool)
    ensures
        r == is_plain_lib(name@, prefix@, *platform),
{
    let plain = concat(concat(prefix, ".").as_str(), platform.lib_extension.as_str());
    same_text(name, plain.as_str())
}

/// Whether the name is that of a static library of Lua.
pub fn is_lua_lib_name(name: &str, lua_version: &LuaVersion, platform: &LibPlatform) -> (r: bool)
    ensures
        r == is_lib_name(name@, *lua_version, *platform),
{
    let jit = lua_version.is_luajit();
    let version_str = lua_version.version_compatibility_str();
    let version_suffix = remove_char(version_str.as_str(), '.');
    let bare = if platform.unix {
        trim_start_matches(name, "lib")
    } else {
        copy(name)
    };
    let bare = bare.as_str();
    if has_plain_lib_name(bare, "lua", platform) || (jit && has_plain_lib_name(
        bare,
        "luajit",
        platform,
    )) {
        return true;
    }
    (starts_with(bare, "lua") || (jit && starts_with(bare, "luajit"))) && (contains(
        bare,
        version_str.as_str(),
    ) || (!platform.msvc && contains(bare, version_suffix.as_str())))
}

/// The file is a static library of Lua.
pub open spec fn is_lua_lib(path: Seq<char>, version: LuaVersion, platform: LibPlatform) -> bool {
    &&& extension(path) == Some(platform.lib_extension@)
    &&& file_name(path) matches Some(name)
    &&& is_lib_name(name, version, platform)
}

/// The first static library of Lua among the files of a directory.
pub fn find_lua_lib(files: &Vec<String>, lua_version: &LuaVersion, platform: &LibPlatform) -> (r:
    Option<String>)
    ensures
        match r {
            Some(path) => exists|i: int|
                0 <= i < files@.len() && path@ == (#[trigger] files@[i])@ && is_lua_lib(
                    files@[i]@,
                    *lua_version,
                    *platform,
                ) && forall|j: int|
                    0 <= j < i ==> !is_lua_lib((#[trigger] files@[j])@, *lua_version, *platform),
            None => forall|i: int|
                0 <= i < files@.len() ==> !is_lua_lib(
                    (#[trigger] files@[i])@,
                    *lua_version,
                    *platform,
                ),
        },
{
    let mut i: usize = 0;
    while i < files.len()
        invariant
            i <= files@.len(),
            forall|k: int|
                0 <= k < i ==> !is_lua_lib((#[trigger] files@[k])@, *lua_version, *platform),
        decreases files@.len() - i,
    {
        let file = &files[i];
        let is_lib = match path_extension(file.as_str()) {
            Some(ext) => same_text(ext.as_str(), platform.lib_extension.as_str()),
            None => false,
        };
        if is_lib {
            if let Some(name) = path_file_name(file.as_str()) {
                if is_lua_lib_name(name.as_str(), lua_version, platform) {
                    assert(is_lua_lib(files@[i as int]@, *lua_version, *platform));
                    return Some(copy(file.as_str()));
                }
            }
        }
        i = i + 1;
    }
    None
}

/// The names under which the version is looked for outside Lua, the first one first.
pub open spec fn probe_names(version: LuaVersion) -> Seq<Seq<char>> {
    match version {
        LuaVersion::Lua51 => seq!["lua5.1"@, "lua-5.1"@],
        LuaVersion::Lua52 => seq!["lua5.2"@, "lua-5.2"@],
        LuaVersion::Lua53 => seq!["lua5.3"@, "lua-5.3"@],
        LuaVersion::Lua54 => seq!["lua5.4"@, "lua-5.4"@],
        LuaVersion::Lua55 => seq!["lua5.5"@, "lua-5.5"@],
        LuaVersion::LuaJIT | LuaVersion::LuaJIT52 => seq!["luajit"@],
    }
}

/// The two strings as a list.
fn two(a: &str, b: &str) -> (r: Vec<String>)
    ensures
        texts(r@) == seq![a@, b@],
{
    let mut r: Vec<String> = Vec::new();
    r.push(copy(a));
    r.push(copy(b));
    assert(texts(r@) == seq![a@, b@]);
    r
}

/// The names under which the version is looked for outside Lua, the first one first.
pub fn pkg_name_probes(version: &LuaVersion) -> (r: Vec<String>)
    ensures
        texts(r@) == probe_names(*version),
{
    match version {
        LuaVersion::Lua51 => two("lua5.1", "lua-5.1"),
        LuaVersion::Lua52 => two("lua5.2", "lua-5.2"),
        LuaVersion::Lua53 => two("lua5.3", "lua-5.3"),
        LuaVersion::Lua54 => two("lua5.4", "lua-5.4"),
        LuaVersion::Lua55 => two("lua5.5", "lua-5.5"),
        LuaVersion::LuaJIT | LuaVersion::LuaJIT52 => {
            let mut r: Vec<String> = Vec::new();
            r.push(copy("luajit"));
            assert(texts(r@) == seq!["luajit"@]);
            r
        },
    }
}

/// The first one that was found.
pub open spec fn first_found(probes: Seq<Option<ExternalDependencyInfo>>) -> Option<
    ExternalDependencyInfo,
>
    decreases probes.len(),
{
    if probes.len() == 0 {
        None
    } else if probes[0] is Some {
        probes[0]
    } else {
        first_found(probes.skip(1))
    }
}

/// The first one that was found, where `probes` has what was found under each name.
pub fn find_first(probes: Vec<Option<ExternalDependencyInfo>>) -> (r: Option<
    ExternalDependencyInfo,
>)
    ensures
        r == first_found(probes@),
{
    let ghost all = probes@;
    assert(all.skip(0) == all);
    for probe in it: probes
        invariant
            it.seq() == all,
            all == probes@,
            first_found(all) == first_found(all.skip(it.index())),
    {
        proof {
            let i = it.index();
            assert(all.skip(i)[0] == probe);
            assert(all.skip(i).skip(1) == all.skip(i + 1));
        }
        if let Some(info) = probe {
            return Some(info);
        }
    }
    None
}

/// The directory for binaries beside a directory for libraries.
pub open spec fn beside(style: PathStyle, lib_dir: Option<Seq<char>>) -> Option<Seq<char>> {
    match lib_dir {
        Some(dir) => match parent_in(style, dir) {
            Some(parent) => Some(joined_in(style, parent, "bin"@)),
            None => None,
        },
        None => None,
    }
}

/// The Lua binary in a directory, of which `files` are the files where it can be read.
pub open spec fn is_bin_of(
    files: Option<Vec<BinFile>>,
    version_name: Seq<char>,
    exe_suffix: Seq<char>,
    bin: Option<Seq<char>>,
) -> bool {
    match files {
        Some(files) => is_lua_executable(files@, version_name, exe_suffix, bin),
        None => bin is None,
    }
}

/// The Lua binary in a directory, of which `files` are the files where it can be read.
fn find_in(files: &Option<Vec<BinFile>>, version_name: &str, exe_suffix: &str) -> (r: Option<String>)
    ensures
        is_bin_of(*files, version_name@, exe_suffix@, opt_text(r)),
{
    match files {
        Some(files) => find_lua_executable(files, version_name, exe_suffix),
        None => None,
    }
}

/// What to do for a version of Lua that is asked for.
#[derive(Debug)]
pub enum NewLua {
    /// This installation was found.
    Probed(LuaInstallation),
    /// It is installed where this package manager installs it.
    Installed,
    /// It has to be built and installed.
    Install,
}

impl LuaInstallation {
    /// The directory in which the binary is looked for, where a dependency was found.
    pub fn probed_bin_dir(info: &ExternalDependencyInfo, style: PathStyle) -> (r: Option<String>)
        ensures
            opt_text(r) == beside(style, opt_text(info.lib_dir)),
    {
        match &info.lib_dir {
            Some(dir) => match path_parent_in(style, dir.as_str()) {
                Some(parent) => Some(path_join_in(style, parent.as_str(), "bin")),
                None => None,
            },
            None => None,
        }
    }

    /// The installation that was found outside this package manager. `bin_files` are the files of
    /// the directory for binaries, where that is a directory, and `lib_name` is the name of the
    /// library in the directory for libraries.
    pub fn probe(
        version: LuaVersion,
        version_name: &str,
        exe_suffix: &str,
        found: Option<ExternalDependencyInfo>,
        bin_files: Option<Vec<BinFile>>,
        lib_name: Option<String>,
    ) -> (r: Option<LuaInstallation>)
        ensures
            match (found, r) {
                (Some(info), Some(lua)) => {
                    &&& lua.version == version
                    &&& lua.dependency_info == (ExternalDependencyInfo {
                        lib_name: if info.lib_dir is Some {
                            lib_name
                        } else {
                            None
                        },
                        ..info
                    })
                    &&& is_bin_of(
                        if info.lib_dir is Some {
                            bin_files
                        } else {
                            None
                        },
                        version_name@,
                        exe_suffix@,
                        opt_text(lua.bin),
                    )
                },
                (None, None) => true,
                _ => false,
            },
    {
        match found {
            Some(info) => {
                let has_lib_dir = info.lib_dir.is_some();
                let bin = if has_lib_dir {
                    find_in(&bin_files, version_name, exe_suffix)
                } else {
                    None
                };
                let lib_name = if has_lib_dir {
                    lib_name
                } else {
                    None
                };
                Some(
                    LuaInstallation {
                        version,
                        dependency_info: ExternalDependencyInfo { lib_name, ..info },
                        bin,
                    },
                )
            },
            None => None,
        }
    }

    /// What to do for a version of Lua that is asked for: it is built unless it was found outside
    /// this package manager, or has its headers and its library in the directory of this one.
    pub fn new(probed: Option<LuaInstallation>, has_include_dir: bool, has_lib: bool) -> (r: NewLua)
        ensures
            r == match probed {
                Some(lua) => NewLua::Probed(lua),
                None => if has_include_dir && has_lib {
                    NewLua::Installed
                } else {
                    NewLua::Install
                },
            },
    {
        match probed {
            Some(lua) => NewLua::Probed(lua),
            None => if has_include_dir && has_lib {
                NewLua::Installed
            } else {
                NewLua::Install
            },
        }
    }

    /// The installation in the directory `root` of this package manager. `bin_files` are the files
    /// of its directory for binaries, where that is a directory: the outer option says whether it
    /// is one, the inner one whether it can be read.
    pub fn install(
        version: LuaVersion,
        version_name: &str,
        exe_suffix: &str,
        root: &str,
        bin_files: Option<Option<Vec<BinFile>>>,
        lib_name: Option<String>,
        style: PathStyle,
    ) -> (r: LuaInstallation)
        ensures
            r.version == version,
            opt_text(r.dependency_info.include_dir) == Some(joined_in(style, root@, "include"@)),
            opt_text(r.dependency_info.lib_dir) == Some(joined_in(style, root@, "lib"@)),
            opt_text(r.dependency_info.bin_dir) == if bin_files is Some {
                Some(joined_in(style, root@, "bin"@))
            } else {
                None
            },
            r.dependency_info.lib_name == lib_name,
            is_bin_of(
                match bin_files {
                    Some(files) => files,
                    None => None,
                },
                version_name@,
                exe_suffix@,
                opt_text(r.bin),
            ),
    {
        let (bin_dir, bin) = match &bin_files {
            Some(files) => (
                Some(path_join_in(style, root, "bin")),
                find_in(files, version_name, exe_suffix),
            ),
            None => (None, None),
        };
        LuaInstallation {
            version,
            dependency_info: ExternalDependencyInfo {
                include_dir: Some(path_join_in(style, root, "include")),
                lib_dir: Some(path_join_in(style, root, "lib")),
                bin_dir,
                lib_name,
            },
            bin,
        }
    }

    /// The directories with the headers.
    pub fn includes(&self) -> (r: Vec<&String>)
        ensures
            match self.dependency_info.include_dir {
                Some(dir) => r@.len() == 1 && *r@[0] == dir,
                None => r@.len() == 0,
            },
    {
        let mut r: Vec<&String> = Vec::new();
        if let Some(dir) = &self.dependency_info.include_dir {
            r.push(dir);
        }
        r
    }

    /// The Lua binary.
    pub fn bin(&self) -> (r: &Option<String>)
        ensures
            *r == self.bin,
    {
        &self.bin
    }

    /// The directory in which this package manager installs Lua: the one of the configuration,
    /// or else one below the user tree, or else one below the data directory.
    pub fn root_dir(
        lua_dir: Option<String>,
        user_tree_root: Option<String>,
        data_dir: &str,
        version_name: &str,
        style: PathStyle,
    ) -> (r: String)
        ensures
            r@ == match (lua_dir, user_tree_root) {
                (Some(dir), _) => dir@,
                (None, Some(root)) => joined_in(style, root@, ".lua"@),
                (None, None) => joined_in(style, joined_in(style, data_dir@, ".lua"@), version_name@),
            },
    {
        match lua_dir {
            Some(dir) => dir,
            None => match user_tree_root {
                Some(root) => path_join_in(style, root.as_str(), ".lua"),
                None => path_join_in(style, path_join_in(style, data_dir, ".lua").as_str(), version_name),
            },
        }
    }

    /// The file name of the Lua library. With MSVC it is the bare name.
    pub fn lua_lib(&self, platform: &LibPlatform) -> (r: Option<String>)
        ensures
            opt_text(r) == lib_file(*self, *platform),
    {
        match &self.dependency_info.lib_name {
            Some(name) => if platform.msvc {
                Some(copy(name.as_str()))
            } else {
                Some(
                    concat(
                        concat(name.as_str(), ".").as_str(),
                        platform.lib_extension.as_str(),
                    ),
                )
            },
            None => None,
        }
    }

    /// The arguments that link Lua, of which there are none on macOS, where they can lead to
    /// duplicate symbols.
    pub fn lib_link_args(&self, macos: bool, args: Vec<String>) -> (r: Vec<String>)
        ensures
            r@ == if macos {
                Seq::<String>::empty()
            } else {
                args@
            },
    {
        if macos {
            Vec::new()
        } else {
            args
        }
    }

    /// The Lua binary. That of the configuration comes first, then that of the installation, and
    /// then `resolved`, which was found for the version.
    pub fn lua_binary_or_config_override(
        &self,
        config_lua: Option<String>,
        resolved: Option<String>,
    ) -> (r: Option<String>)
        ensures
            match (config_lua, self.bin, resolved, r) {
                (Some(lua), _, _, Some(text)) => text == lua,
                (None, Some(bin), _, Some(text)) => is_slash_text(bin@, text@),
                (None, None, Some(bin), Some(text)) => is_slash_text(bin@, text@),
                (None, None, None, None) => true,
                _ => false,
            },
    {
        match config_lua {
            Some(lua) => Some(lua),
            None => match &self.bin {
                Some(bin) => Some(to_slash_lossy(bin.as_str())),
                None => match resolved {
                    Some(bin) => Some(to_slash_lossy(bin.as_str())),
                    None => None,
                },
            },
        }
    }

    /// The value of a variable. `resolved` is the binary that was found for the version.
    pub fn get_variable(&self, input: &str, resolved: Option<String>, platform: &LibPlatform) -> (r:
        Option<Variable>)
        ensures
            variable_view(r) == variable(*self, input@, opt_text(resolved), *platform),
    {
        if same_text(input, "LUA_INCDIR") {
            path_variable(&self.dependency_info.include_dir)
        } else if same_text(input, "LUA_LIBDIR") {
            path_variable(&self.dependency_info.lib_dir)
        } else if same_text(input, "LUA_BINDIR") {
            match &self.bin {
                Some(bin) => match path_parent_in(platform.path_style, bin.as_str()) {
                    Some(dir) => Some(Variable::Path(dir)),
                    None => None,
                },
                None => None,
            }
        } else if same_text(input, "LUA") {
            match &self.bin {
                Some(bin) => Some(Variable::Path(copy(bin.as_str()))),
                None => path_variable(&resolved),
            }
        } else if same_text(input, "LUALIB") {
            match self.lua_lib(platform) {
                Some(lib) => Some(Variable::Text(lib)),
                None => {
                    let empty = String::new();
                    assert(empty@ == Seq::<char>::empty());
                    Some(Variable::Text(empty))
                },
            }
        } else {
            None
        }
    }
}

/// The value of a variable.
#[derive(Debug)]
pub enum Variable {
    /// A path, which is written as the build tools of the platform expect it
    Path(String),
    /// A text
    Text(String),
}

/// What a [`Variable`] says.
pub enum VariableView {
    Path(Seq<char>),
    Text(Seq<char>),
}

/// What the variable says, where it has a value.
pub open spec fn variable_view(variable: Option<Variable>) -> Option<VariableView> {
    match variable {
        Some(Variable::Path(path)) => Some(VariableView::Path(path@)),
        Some(Variable::Text(text)) => Some(VariableView::Text(text@)),
        None => None,
    }
}

/// The path as the value of a variable.
pub open spec fn path_value(path: Option<Seq<char>>) -> Option<VariableView> {
    match path {
        Some(path) => Some(VariableView::Path(path)),
        None => None,
    }
}

/// The file name of the Lua library.
pub open spec fn lib_file(lua: LuaInstallation, platform: LibPlatform) -> Option<Seq<char>> {
    match lua.dependency_info.lib_name {
        Some(name) => if platform.msvc {
            Some(name@)
        } else {
            Some(name@ + "."@ + platform.lib_extension@)
        },
        None => None,
    }
}

/// The value of the variable `input`.
pub open spec fn variable(
    lua: LuaInstallation,
    input: Seq<char>,
    resolved: Option<Seq<char>>,
    platform: LibPlatform,
) -> Option<VariableView> {
    if input == "LUA_INCDIR"@ {
        path_value(opt_text(lua.dependency_info.include_dir))
    } else if input == "LUA_LIBDIR"@ {
        path_value(opt_text(lua.dependency_info.lib_dir))
    } else if input == "LUA_BINDIR"@ {
        match lua.bin {
            Some(bin) => path_value(parent_in(platform.path_style, bin@)),
            None => None,
        }
    } else if input == "LUA"@ {
        match lua.bin {
            Some(bin) => Some(VariableView::Path(bin@)),
            None => path_value(resolved),
        }
    } else if input == "LUALIB"@ {
        match lib_file(lua, platform) {
            Some(lib) => Some(VariableView::Text(lib)),
            None => Some(VariableView::Text(Seq::empty())),
        }
    } else {
        None
    }
}

/// The path as the value of a variable.
fn path_variable(path: &Option<String>) -> (r: Option<Variable>)
    ensures
        variable_view(r) == path_value(opt_text(*path)),
{
    match path {
        Some(path) => Some(Variable::Path(copy(path.as_str()))),
        None => None,
    }
}

/// The file is executable and has the name.
pub open spec fn runs_as(file: BinFile, name: Seq<char>) -> bool {
    file.executable && file_name(file.path@) == Some(name)
}

/// A binary with the version in its name is found wherever there is one, the first of them;
/// otherwise the first one with a plain name of Lua or LuaJIT is. What is found is executable and
/// has such a name, and nothing is found exactly if no file is so.
pub proof fn binary_is_found_by_its_name(
    files: &Vec<BinFile>,
    version_name: &str,
    exe_suffix: &str,
    r: Option<String>,
    i: int,
)
    requires
        call_ensures(find_lua_executable, (files, version_name, exe_suffix), r),
        0 <= i < files@.len(),
    ensures
        ({
            let name = "lua"@ + version_name@ + exe_suffix@;
            let plain = runs_as(files@[i], "lua"@) || runs_as(files@[i], "luajit"@) || runs_as(
                files@[i],
                "lua.exe"@,
            ) || runs_as(files@[i], "luajit.exe"@);
            &&& runs_as(files@[i], name) ==> r is Some && file_name(r->0@) == Some(name)
            &&& runs_as(files@[i], name) && (forall|j: int|
                0 <= j < i ==> !runs_as(#[trigger] files@[j], name)) ==> r->0@ == files@[i].path@
            &&& plain ==> r is Some
            &&& plain && (forall|j: int|
                0 <= j < files@.len() ==> !runs_as(#[trigger] files@[j], name)) && (forall|j: int|
                0 <= j < i ==> !(#[trigger] files@[j]).executable) ==> r->0@ == files@[i].path@
            &&& r is Some ==> exists|j: int|
                0 <= j < files@.len() && (#[trigger] files@[j]).executable && files@[j].path@
                    == r->0@
            &&& r is Some ==> {
                ||| file_name(r->0@) == Some(name)
                ||| file_name(r->0@) == Some("lua"@)
                ||| file_name(r->0@) == Some("luajit"@)
                ||| file_name(r->0@) == Some("lua.exe"@)
                ||| file_name(r->0@) == Some("luajit.exe"@)
            }
        }),
{
    let name = "lua"@ + version_name@ + exe_suffix@;
    assert forall|j: int| 0 <= j < files@.len() implies runs_as(#[trigger] files@[j], name)
        == is_binary(files@[j], name) by {}
    if r is Some {
        if exists|k: int| first_binary(files@, name, k) && r->0@ == (#[trigger] files@[k]).path@ {
            let k = choose|k: int|
                first_binary(files@, name, k) && r->0@ == (#[trigger] files@[k]).path@;
            assert(files@[k].executable);
            if runs_as(files@[i], name) && (forall|j: int|
                0 <= j < i ==> !runs_as(#[trigger] files@[j], name)) {
                if k < i {
                    assert(!runs_as(files@[k], name));
                } else if i < k {
                    assert(!is_binary(files@[i], name));
                }
            }
        } else {
            let k = choose|k: int|
                first_plain_binary(files@, k) && r->0@ == (#[trigger] files@[k]).path@;
            assert(files@[k].executable);
            if runs_as(files@[i], "lua"@) || runs_as(files@[i], "luajit"@) || runs_as(
                files@[i],
                "lua.exe"@,
            ) || runs_as(files@[i], "luajit.exe"@) {
                assert(is_plain_binary(files@[i]));
            }
        }
    }
}

/// A library is one of Lua if its name is `lua` with the library extension, or begins with `lua`
/// and the version, on Unix also with `lib` in front of it; for LuaJIT `luajit` with the extension
/// is one, too. The version may be written without its dot, but not with MSVC. A name that begins
/// otherwise is none, nor is one that holds no version.
pub proof fn library_is_known_by_its_name(
    name: &str,
    version: &LuaVersion,
    platform: &LibPlatform,
    r: bool,
    text: String,
    dotted: &str,
    dotless: String,
    jit: bool,
    rest: Seq<char>,
)
    requires
        call_ensures(is_lua_lib_name, (name, version, platform), r),
        call_ensures(LuaVersion::version_compatibility_str, (version,), text),
        dotted@ == text@,
        call_ensures(remove_char, (dotted, '.'), dotless),
        call_ensures(LuaVersion::is_luajit, (version,), jit),
    ensures
        name@ == "lua."@ + platform.lib_extension@ ==> r,
        name@ == "luajit."@ + platform.lib_extension@ && jit ==> r,
        platform.unix && name@ == "liblua."@ + platform.lib_extension@ ==> r,
        platform.unix && name@ == "libluajit."@ + platform.lib_extension@ && jit ==> r,
        name@ == "lua"@ + text@ + rest ==> r,
        platform.unix && name@ == "liblua"@ + text@ + rest ==> r,
        !platform.msvc && name@ == "lua"@ + dotless@ + rest ==> r,
        r && (!platform.unix || !"lib"@.is_prefix_of(name@)) && name@ != "lua."@ + platform.lib_extension@ && name@ != "luajit."@
            + platform.lib_extension@ ==> contains_text(name@, text@) || (!platform.msvc
            && contains_text(name@, dotless@)),
        r && !platform.unix ==> "lua"@.is_prefix_of(name@),
        r && 3 <= name@.len() ==> name@.subrange(0, 3) == "lua"@ || (platform.unix && name@.subrange(
            0,
            3,
        ) == "lib"@),
        r ==> 3 <= name@.len(),
{
    reveal_strlit("lib");
    reveal_strlit("lua");
    reveal_strlit("luajit");
    reveal_strlit(".");
    reveal_strlit("lua.");
    reveal_strlit("luajit.");
    reveal_strlit("liblua");
    reveal_strlit("liblua.");
    reveal_strlit("libluajit.");
    let ext = platform.lib_extension@;
    assert("lua."@ + ext == "lua"@ + "."@ + ext);
    assert("luajit."@ + ext == "luajit"@ + "."@ + ext);
    assert("liblua."@ + ext == "lib"@ + ("lua"@ + "."@ + ext));
    assert("libluajit."@ + ext == "lib"@ + ("luajit"@ + "."@ + ext));
    assert("liblua"@ + text@ + rest == "lib"@ + ("lua"@ + text@ + rest));
    lemma_bare_lua(("lua"@ + "."@ + ext), platform);
    lemma_bare_lua(("luajit"@ + "."@ + ext), platform);
    lemma_bare_lua(("lua"@ + text@ + rest), platform);
    let long = "lua"@ + text@ + rest;
    assert(long.subrange(0, 3) == "lua"@);
    assert(long.subrange(3, 3 + text@.len() as int) == text@);
    assert(occurs_at(long, text@, 3));
    assert(contains_text(long, text@));
    let short = "lua"@ + dotless@ + rest;
    lemma_bare_lua(short, platform);
    assert(short.subrange(0, 3) == "lua"@);
    assert(short.subrange(3, 3 + dotless@.len() as int) == dotless@);
    assert(occurs_at(short, dotless@, 3));
    assert(contains_text(short, dotless@));
    let bare = bare_name(name@, *platform);
    if r {
        assert("lua"@.is_prefix_of(bare)) by {
            if is_plain_lib(bare, "lua"@, *platform) {
                assert(bare.subrange(0, 3) == "lua"@);
            } else if is_plain_lib(bare, "luajit"@, *platform) {
                assert(bare.subrange(0, 3) == "lua"@);
            } else if "luajit"@.is_prefix_of(bare) {
                assert(bare.subrange(0, 6) == "luajit"@);
                assert(bare.subrange(0, 3) == "luajit"@.subrange(0, 3));
                assert("luajit"@.subrange(0, 3) == "lua"@);
            }
        }
        if platform.unix && !"lib"@.is_prefix_of(name@) {
            assert(bare == name@);
        }
        if platform.unix && "lib"@.is_prefix_of(name@) {
            assert(name@.subrange(0, 3) == "lib"@);
        }
        assert(bare.subrange(0, 3) == "lua"@);
    }
}

proof fn lemma_bare_lua(name: Seq<char>, platform: &LibPlatform)
    requires
        3 <= name.len(),
        name[0] == 'l',
        name[1] == 'u',
    ensures
        bare_name(name, *platform) == name,
        platform.unix ==> bare_name("lib"@ + name, *platform) == name,
{
    reveal_strlit("lib");
    assert(!"lib"@.is_prefix_of(name)) by {
        if "lib"@.is_prefix_of(name) {
            assert(name.subrange(0, 3)[1] == 'u');
        }
    }
    let longer = "lib"@ + name;
    assert(longer.subrange(0, 3) == "lib"@);
    assert(longer.skip(3) == name);
    assert(trim_start(name, "lib"@) == name);
    assert(trim_start(longer, "lib"@) == trim_start(longer.skip(3), "lib"@));
}

/// The library is the first file with the library extension whose name is one of a library of
/// Lua, and nothing is found exactly if there is none.
pub proof fn first_library_is_found(
    files: &Vec<String>,
    version: &LuaVersion,
    platform: &LibPlatform,
    r: Option<String>,
    i: int,
    path: &str,
    ext: Option<String>,
    name: Option<String>,
    name_text: &str,
    known: bool,
)
    requires
        call_ensures(find_lua_lib, (files, version, platform), r),
        0 <= i < files@.len(),
        path@ == files@[i]@,
        call_ensures(path_extension, (path,), ext),
        call_ensures(path_file_name, (path,), name),
        name is Some ==> name_text@ == name->0@,
        call_ensures(is_lua_lib_name, (name_text, version, platform), known),
    ensures
        ({
            let is_lib = ext is Some && ext->0@ == platform.lib_extension@ && name is Some && known;
            &&& is_lib ==> r is Some
            &&& r is Some ==> exists|j: int| 0 <= j < files@.len() && (#[trigger] files@[j])@ == r->0@
            &&& r is Some && r->0@ == path@ ==> is_lib
            &&& is_lib && (forall|j: int|
                0 <= j < i ==> extension((#[trigger] files@[j])@) != Some(
                    platform.lib_extension@,
                )) ==> r->0@ == path@
        }),
{
    if ext is Some && ext->0@ == platform.lib_extension@ && name is Some && known {
        assert(is_lua_lib(files@[i]@, *version, *platform));
    }
    if r is Some {
        let k = choose|k: int|
            0 <= k < files@.len() && r->0@ == (#[trigger] files@[k])@ && is_lua_lib(
                files@[k]@,
                *version,
                *platform,
            ) && forall|j: int|
                0 <= j < k ==> !is_lua_lib((#[trigger] files@[j])@, *version, *platform);
        assert(files@[k]@ == r->0@);
    }
}

/// The names under which a Lua version is probed are `lua` with the version, without and with a
/// hyphen; LuaJIT is probed as `luajit` alone.
pub proof fn versions_are_probed_by_their_names(
    version: &LuaVersion,
    r: Vec<String>,
    text: String,
    jit: bool,
)
    requires
        call_ensures(pkg_name_probes, (version,), r),
        call_ensures(LuaVersion::version_compatibility_str, (version,), text),
        call_ensures(LuaVersion::is_luajit, (version,), jit),
    ensures
        jit ==> r@.len() == 1 && r@[0]@ == "luajit"@,
        !jit ==> r@.len() == 2 && r@[0]@ == "lua"@ + text@ && r@[1]@ == "lua-"@ + text@,
{
    reveal_strlit("lua");
    reveal_strlit("lua-");
    reveal_strlit("5.1");
    reveal_strlit("5.2");
    reveal_strlit("5.3");
    reveal_strlit("5.4");
    reveal_strlit("5.5");
    reveal_strlit("lua5.1");
    reveal_strlit("lua5.2");
    reveal_strlit("lua5.3");
    reveal_strlit("lua5.4");
    reveal_strlit("lua5.5");
    reveal_strlit("lua-5.1");
    reveal_strlit("lua-5.2");
    reveal_strlit("lua-5.3");
    reveal_strlit("lua-5.4");
    reveal_strlit("lua-5.5");
    assert("lua"@ + "5.1"@ == "lua5.1"@ && "lua-"@ + "5.1"@ == "lua-5.1"@);
    assert("lua"@ + "5.2"@ == "lua5.2"@ && "lua-"@ + "5.2"@ == "lua-5.2"@);
    assert("lua"@ + "5.3"@ == "lua5.3"@ && "lua-"@ + "5.3"@ == "lua-5.3"@);
    assert("lua"@ + "5.4"@ == "lua5.4"@ && "lua-"@ + "5.4"@ == "lua-5.4"@);
    assert("lua"@ + "5.5"@ == "lua5.5"@ && "lua-"@ + "5.5"@ == "lua-5.5"@);
    let names = texts(r@);
    assert(names.len() == r@.len());
    assert(names[0] == r@[0]@);
    if !jit {
        assert(names[1] == r@[1]@);
    }
}

proof fn lemma_first_found(probes: Seq<Option<ExternalDependencyInfo>>, i: int)
    requires
        0 <= i <= probes.len(),
        forall|j: int| 0 <= j < i ==> #[trigger] probes[j] is None,
    ensures
        i < probes.len() && probes[i] is Some ==> first_found(probes) == probes[i],
        i == probes.len() ==> first_found(probes) is None,
    decreases probes.len(),
{
    if 0 < i {
        let rest = probes.skip(1);
        assert(probes[0] is None);
        assert forall|j: int| 0 <= j < i - 1 implies #[trigger] rest[j] is None by {
            assert(probes[j + 1] is None);
        }
        lemma_first_found(rest, i - 1);
        if i < probes.len() {
            assert(rest[i - 1] == probes[i]);
        }
    }
}

/// The first probe that found something counts; nothing is found exactly if no probe found
/// anything.
pub proof fn first_probe_counts(
    probes: Vec<Option<ExternalDependencyInfo>>,
    r: Option<ExternalDependencyInfo>,
    i: int,
)
    requires
        call_ensures(find_first, (probes,), r),
    ensures
        0 <= i < probes@.len() && probes@[i] is Some && (forall|j: int|
            0 <= j < i ==> #[trigger] probes@[j] is None) ==> r == probes@[i],
        (forall|j: int| 0 <= j < probes@.len() ==> #[trigger] probes@[j] is None) ==> r is None,
{
    if 0 <= i < probes@.len() && probes@[i] is Some && (forall|j: int|
        0 <= j < i ==> #[trigger] probes@[j] is None) {
        lemma_first_found(probes@, i);
    }
    if forall|j: int| 0 <= j < probes@.len() ==> #[trigger] probes@[j] is None {
        lemma_first_found(probes@, probes@.len() as int);
    }
}

/// The binaries of a probed Lua are looked for in `bin` beside the directory of its library.
pub proof fn binaries_are_beside_the_library(
    info: &ExternalDependencyInfo,
    style: PathStyle,
    r: Option<String>,
    dir: &str,
    parent: Option<String>,
    parent_text: &str,
    bin: String,
)
    requires
        call_ensures(LuaInstallation::probed_bin_dir, (info, style), r),
        info.lib_dir is Some ==> dir@ == info.lib_dir->0@,
        call_ensures(path_parent_in, (style, dir), parent),
        parent is Some ==> parent_text@ == parent->0@,
        call_ensures(path_join_in, (style, parent_text, "bin"), bin),
    ensures
        r is Some <==> info.lib_dir is Some && parent is Some,
        r is Some ==> r->0@ == bin@,
{
}

/// A Lua is probed exactly if something was found for it, and has what was found. Its library and
/// its binary are known only with the directory of the library, and the binary is the one that is
/// found among the files beside it.
pub proof fn probed_lua_has_what_was_found(
    version: LuaVersion,
    version_name: &str,
    exe_suffix: &str,
    found: Option<ExternalDependencyInfo>,
    bin_files: Option<Vec<BinFile>>,
    lib_name: Option<String>,
    r: Option<LuaInstallation>,
    files: &Vec<BinFile>,
    bin: Option<String>,
)
    requires
        call_ensures(
            LuaInstallation::probe,
            (version, version_name, exe_suffix, found, bin_files, lib_name),
            r,
        ),
        bin_files is Some ==> *files == bin_files->0,
        call_ensures(find_lua_executable, (files, version_name, exe_suffix), bin),
    ensures
        r is Some <==> found is Some,
        r is Some ==> {
            &&& r->0.version == version
            &&& r->0.dependency_info.include_dir == found->0.include_dir
            &&& r->0.dependency_info.lib_dir == found->0.lib_dir
            &&& r->0.dependency_info.bin_dir == found->0.bin_dir
            &&& found->0.lib_dir is Some ==> r->0.dependency_info.lib_name == lib_name
            &&& found->0.lib_dir is None ==> r->0.dependency_info.lib_name is None && r->0.bin
                is None
            &&& bin_files is None ==> r->0.bin is None
            &&& found->0.lib_dir is Some && bin_files is Some ==> (r->0.bin is Some <==> bin
                is Some) && (bin is Some ==> r->0.bin->0@ == bin->0@)
        },
{
    if found is Some && found->0.lib_dir is Some && bin_files is Some {
        lemma_one_executable(
            files@,
            version_name@,
            exe_suffix@,
            opt_text(r->0.bin),
            opt_text(bin),
        );
    }
}

proof fn lemma_one_executable(
    files: Seq<BinFile>,
    version_name: Seq<char>,
    exe_suffix: Seq<char>,
    a: Option<Seq<char>>,
    b: Option<Seq<char>>,
)
    requires
        is_lua_executable(files, version_name, exe_suffix, a),
        is_lua_executable(files, version_name, exe_suffix, b),
    ensures
        a == b,
{
    let name = versioned_binary(version_name, exe_suffix);
    if a is Some && b is Some {
        if exists|i: int| first_binary(files, name, i) && a->0 == (#[trigger] files[i]).path@ {
            let i = choose|i: int| first_binary(files, name, i) && a->0 == (
            #[trigger] files[i]).path@;
            let j = choose|j: int| first_binary(files, name, j) && b->0 == (
            #[trigger] files[j]).path@;
            assert(first_binary(files, name, j));
            assert(!(i < j) && !(j < i));
        } else {
            let i = choose|i: int| first_plain_binary(files, i) && a->0 == (
            #[trigger] files[i]).path@;
            let j = choose|j: int| first_plain_binary(files, j) && b->0 == (
            #[trigger] files[j]).path@;
            assert(first_plain_binary(files, j));
            assert(!(i < j) && !(j < i));
        }
    }
}

/// A probed Lua is used. Without one, an installed one is used exactly if it has its headers and
/// its library, and otherwise Lua is installed.
pub proof fn installed_lua_is_complete(
    probed: Option<LuaInstallation>,
    has_headers: bool,
    has_lib: bool,
    r: NewLua,
)
    requires
        call_ensures(LuaInstallation::new, (probed, has_headers, has_lib), r),
    ensures
        r is Probed <==> probed is Some,
        r is Probed ==> r->Probed_0 == probed->0,
        r is Installed <==> probed is None && has_headers && has_lib,
        r is Install <==> probed is None && !(has_headers && has_lib),
{
}

/// An installed Lua has its headers in `include` of its root, its libraries in `lib`, and its
/// binaries in `bin` where there are such; its binary is the one that is found among them.
pub proof fn installed_lua_is_in_its_root(
    version: LuaVersion,
    version_name: &str,
    exe_suffix: &str,
    root: &str,
    bin_files: Option<Option<Vec<BinFile>>>,
    lib_name: Option<String>,
    style: PathStyle,
    r: LuaInstallation,
    headers: String,
    lib: String,
    bin: String,
    files: &Vec<BinFile>,
    found: Option<String>,
)
    requires
        bin_files is Some && bin_files->0 is Some ==> *files == bin_files->0->0,
        call_ensures(find_lua_executable, (files, version_name, exe_suffix), found),
        call_ensures(
            LuaInstallation::install,
            (version, version_name, exe_suffix, root, bin_files, lib_name, style),
            r,
        ),
        call_ensures(path_join_in, (style, root, "include"), headers),
        call_ensures(path_join_in, (style, root, "lib"), lib),
        call_ensures(path_join_in, (style, root, "bin"), bin),
    ensures
        r.version == version,
        r.dependency_info.include_dir is Some,
        r.dependency_info.include_dir->0@ == headers@,
        r.dependency_info.lib_dir is Some,
        r.dependency_info.lib_dir->0@ == lib@,
        r.dependency_info.bin_dir is Some <==> bin_files is Some,
        r.dependency_info.bin_dir is Some ==> r.dependency_info.bin_dir->0@ == bin@,
        r.dependency_info.lib_name == lib_name,
        bin_files is None ==> r.bin is None,
        bin_files is Some && bin_files->0 is None ==> r.bin is None,
        bin_files is Some && bin_files->0 is Some ==> (r.bin is Some <==> found is Some) && (found
            is Some ==> r.bin->0@ == found->0@),
{
    if bin_files is Some && bin_files->0 is Some {
        lemma_one_executable(
            files@,
            version_name@,
            exe_suffix@,
            opt_text(r.bin),
            opt_text(found),
        );
    }
}

/// The root of an installation is the configured directory, else `.lua` of the user's tree, else
/// the directory of the version in `.lua` of the data directory.
pub proof fn configured_directory_is_the_root(
    lua_dir: Option<String>,
    user_tree_root: Option<String>,
    data_dir: &str,
    version_name: &str,
    style: PathStyle,
    r: String,
    tree: &str,
    in_tree: String,
    data: String,
    data_text: &str,
    in_data: String,
)
    requires
        call_ensures(
            LuaInstallation::root_dir,
            (lua_dir, user_tree_root, data_dir, version_name, style),
            r,
        ),
        user_tree_root is Some ==> tree@ == user_tree_root->0@,
        call_ensures(path_join_in, (style, tree, ".lua"), in_tree),
        call_ensures(path_join_in, (style, data_dir, ".lua"), data),
        data_text@ == data@,
        call_ensures(path_join_in, (style, data_text, version_name), in_data),
    ensures
        lua_dir is Some ==> r@ == lua_dir->0@,
        lua_dir is None && user_tree_root is Some ==> r@ == in_tree@,
        lua_dir is None && user_tree_root is None ==> r@ == in_data@,
{
}

/// An installation hands out its headers and its binary; its library is a file with the library
/// extension, or with MSVC the name alone; and nothing is linked on macOS.
pub proof fn installation_hands_out_its_parts(
    lua: &LuaInstallation,
    platform: &LibPlatform,
    headers: Vec<&String>,
    bin: &Option<String>,
    lib: Option<String>,
    macos: bool,
    args: Vec<String>,
    linked: Vec<String>,
)
    requires
        call_ensures(LuaInstallation::includes, (lua,), headers),
        call_ensures(LuaInstallation::bin, (lua,), bin),
        call_ensures(LuaInstallation::lua_lib, (lua, platform), lib),
        call_ensures(LuaInstallation::lib_link_args, (lua, macos, args), linked),
    ensures
        lua.dependency_info.include_dir is Some ==> headers@.len() == 1 && *headers@[0]
            == lua.dependency_info.include_dir->0,
        lua.dependency_info.include_dir is None ==> headers@.len() == 0,
        *bin == lua.bin,
        lib is Some <==> lua.dependency_info.lib_name is Some,
        lib is Some && platform.msvc ==> lib->0@ == lua.dependency_info.lib_name->0@,
        lib is Some && !platform.msvc ==> lib->0@ == lua.dependency_info.lib_name->0@ + "."@
            + platform.lib_extension@,
        macos ==> linked@.len() == 0,
        !macos ==> linked@ == args@,
{
}

/// The configured binary comes before that of the installation, and that before the one that was
/// resolved; without any of them there is none.
pub proof fn configured_binary_comes_first(
    lua: &LuaInstallation,
    config_lua: Option<String>,
    resolved: Option<String>,
    r: Option<String>,
)
    requires
        call_ensures(
            LuaInstallation::lua_binary_or_config_override,
            (lua, config_lua, resolved),
            r,
        ),
    ensures
        r is Some <==> config_lua is Some || lua.bin is Some || resolved is Some,
        config_lua is Some ==> r->0@ == config_lua->0@,
        config_lua is None && lua.bin is Some ==> is_slash_text(lua.bin->0@, r->0@),
        config_lua is None && lua.bin is None && resolved is Some ==> is_slash_text(
            resolved->0@,
            r->0@,
        ),
{
}

/// The variables of an installation: `LUA_INCDIR` is the directory of its headers, `LUA_LIBDIR`
/// that of its libraries, `LUA_BINDIR` that of its binary, `LUA` its binary or the resolved one,
/// and `LUALIB` the file of its library, or empty. There are no other ones.
pub proof fn variables_name_the_parts(
    lua: &LuaInstallation,
    input: &str,
    resolved: Option<String>,
    platform: &LibPlatform,
    r: Option<Variable>,
    lib: Option<String>,
    bin: &str,
    bin_dir: Option<String>,
)
    requires
        call_ensures(LuaInstallation::get_variable, (lua, input, resolved, platform), r),
        call_ensures(LuaInstallation::lua_lib, (lua, platform), lib),
        lua.bin is Some ==> bin@ == lua.bin->0@,
        call_ensures(path_parent_in, (platform.path_style, bin), bin_dir),
    ensures
        input@ == "LUA_INCDIR"@ ==> {
            &&& r is Some <==> lua.dependency_info.include_dir is Some
            &&& r is Some ==> r->0 is Path && r->0->Path_0@ == lua.dependency_info.include_dir->0@
        },
        input@ == "LUA_LIBDIR"@ ==> {
            &&& r is Some <==> lua.dependency_info.lib_dir is Some
            &&& r is Some ==> r->0 is Path && r->0->Path_0@ == lua.dependency_info.lib_dir->0@
        },
        input@ == "LUA_BINDIR"@ ==> {
            &&& r is Some <==> lua.bin is Some && bin_dir is Some
            &&& r is Some ==> r->0 is Path && r->0->Path_0@ == bin_dir->0@
        },
        input@ == "LUA"@ ==> {
            &&& r is Some <==> lua.bin is Some || resolved is Some
            &&& lua.bin is Some ==> r->0 is Path && r->0->Path_0@ == lua.bin->0@
            &&& lua.bin is None && resolved is Some ==> r->0 is Path && r->0->Path_0@
                == resolved->0@
        },
        input@ == "LUALIB"@ ==> {
            &&& r is Some
            &&& r->0 is Text
            &&& lib is Some ==> r->0->Text_0@ == lib->0@
            &&& lib is None ==> r->0->Text_0@.len() == 0
        },
        input@ != "LUA_INCDIR"@ && input@ != "LUA_LIBDIR"@ && input@ != "LUA_BINDIR"@ && input@
            != "LUA"@ && input@ != "LUALIB"@ ==> r is None,
{
    reveal_strlit("LUA_INCDIR");
    reveal_strlit("LUA_LIBDIR");
    reveal_strlit("LUA_BINDIR");
    reveal_strlit("LUA");
    reveal_strlit("LUALIB");
    assert("LUA_INCDIR"@.len() == 10 && "LUA_INCDIR"@[4] == 'I');
    assert("LUA_LIBDIR"@.len() == 10 && "LUA_LIBDIR"@[4] == 'L');
    assert("LUA_BINDIR"@.len() == 10 && "LUA_BINDIR"@[4] == 'B');
    assert("LUA"@.len() == 3);
    assert("LUALIB"@.len() == 6);
}

/// On Unix `lib` in front of a name makes no difference. A name without it is that of a library
/// of Lua exactly if it is `lua` with the library extension, for LuaJIT also `luajit` with it, or
/// if it begins with `lua` and holds the version; without MSVC the version may lack its dot.
pub proof fn library_names_are_these(
    name: &str,
    with_lib: &str,
    version: &LuaVersion,
    platform: &LibPlatform,
    r: bool,
    longer: bool,
    text: String,
    dotted: &str,
    dotless: String,
    jit: bool,
    inside: bool,
    inside_dotless: bool,
    text_of_dotless: &str,
    starts: bool,
)
    requires
        call_ensures(is_lua_lib_name, (name, version, platform), r),
        with_lib@ == "lib"@ + name@,
        call_ensures(is_lua_lib_name, (with_lib, version, platform), longer),
        call_ensures(LuaVersion::version_compatibility_str, (version,), text),
        dotted@ == text@,
        call_ensures(remove_char, (dotted, '.'), dotless),
        text_of_dotless@ == dotless@,
        call_ensures(LuaVersion::is_luajit, (version,), jit),
        call_ensures(contains, (name, dotted), inside),
        call_ensures(contains, (name, text_of_dotless), inside_dotless),
        call_ensures(starts_with, (name, "lua"), starts),
    ensures
        platform.unix ==> r == longer,
        !platform.unix || !"lib"@.is_prefix_of(name@) ==> (r <==> name@ == "lua."@
            + platform.lib_extension@ || (jit && name@ == "luajit."@ + platform.lib_extension@) || (
        starts && (inside || (!platform.msvc && inside_dotless)))),
{
    reveal_strlit("lua");
    reveal_strlit("luajit");
    reveal_strlit(".");
    reveal_strlit("lua.");
    reveal_strlit("luajit.");
    let ext = platform.lib_extension@;
    assert("lua."@ + ext == "lua"@ + "."@ + ext);
    assert("luajit."@ + ext == "luajit"@ + "."@ + ext);
    if platform.unix {
        lib_prefix_makes_no_difference(name@, *version, *platform);
    }
    if !platform.unix || !"lib"@.is_prefix_of(name@) {
        assert(bare_name(name@, *platform) == name@);
        if "luajit"@.is_prefix_of(name@) {
            assert(name@.subrange(0, 6) == "luajit"@);
            assert(name@.subrange(0, 3) == "luajit"@.subrange(0, 3));
            assert("luajit"@.subrange(0, 3) == "lua"@);
        }
    }
}

} // verus!
