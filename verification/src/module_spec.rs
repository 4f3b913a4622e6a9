//! Lua modules and what they are made of.

use crate::lua_value::{display_list, shows_list, shows_text, DisplayLuaKV, DisplayLuaValue};
use crate::slash_path::{
    extension, extension_is_what_was_appended, is_slash_text, joined, path_extension, path_join,
    to_slash_lossy,
};
use crate::table::{Key, Table};
use crate::text::{
    concat, copy, replace_char, replaced, same_text, split_once, splits_once, texts, trim_end,
    trim_end_matches,
};
use vstd::prelude::*;

verus! {

/// The name of a Lua module in the format of the `require()` function.
#[derive(Debug, PartialEq, Eq, Clone)]
pub struct LuaModule(String);

impl View for LuaModule {
    type V = Seq<char>;

    closed spec fn view(&self) -> Seq<char> {
        self.0@
    }
}

impl Key for LuaModule {
    fn same_key(&self, other: &Self) -> (r: bool) {
        same_text(self.0.as_str(), other.0.as_str())
    }
}

/// Why there is no module name.
#[derive(Debug)]
pub enum ParseLuaModuleError {
    FromString(String),
    EmptyModule(String),
}

impl ParseLuaModuleError {
    /// The message of the error.
    pub open spec fn message(&self) -> Seq<char> {
        match self {
            ParseLuaModuleError::FromString(s) => "could not parse Lua module from '"@ + s@
                + "'."@,
            ParseLuaModuleError::EmptyModule(s) => "path '"@ + s@
                + "' resulted in an empty Lua module."@,
        }
    }

    /// The message of the error.
    pub fn to_message(&self) -> (r: String)
        ensures
            r@ == self.message(),
    {
        match self {
            ParseLuaModuleError::FromString(s) => concat(
                concat("could not parse Lua module from '", s.as_str()).as_str(),
                "'.",
            ),
            ParseLuaModuleError::EmptyModule(s) => concat(
                concat("path '", s.as_str()).as_str(),
                "' resulted in an empty Lua module.",
            ),
        }
    }
}

/// The module name with `/` in place of each dot.
pub open spec fn path_of_module(module: Seq<char>) -> Seq<char> {
    replaced(module, '.', '/')
}

/// The extension of a path, or the empty text.
pub open spec fn extension_or_empty(path: Seq<char>) -> Seq<char> {
    match extension(path) {
        Some(ext) => ext,
        None => Seq::empty(),
    }
}

/// The name of the module in the file `path`: the path without `init` and the extension at its
/// end, and without the slashes that then end it, with dots in place of slashes.
pub open spec fn module_name(path: Seq<char>) -> Seq<char> {
    let ext = extension_or_empty(path);
    let stem = trim_end(trim_end(path, "init."@ + ext), "."@ + ext);
    replaced(trim_end(stem, "/"@), '/', '.')
}

/// The name holds no slash and does not end with a dot.
pub open spec fn is_plain_module(module: Seq<char>) -> bool {
    0 < module.len() && !module.contains('/') && module.last() != '.'
}

/// The path of a plain module ends with a name, holds no dot and says which module it is of.
pub proof fn lemma_plain_path(module: Seq<char>)
    requires
        is_plain_module(module),
    ensures
        path_of_module(module).len() == module.len(),
        path_of_module(module).last() != '/',
        !path_of_module(module).contains('.'),
        replaced(path_of_module(module), '/', '.') == module,
{
    let path = path_of_module(module);
    assert(path.last() == path[path.len() - 1]);
    assert(module.contains(module[module.len() - 1]));
    assert forall|i: int| 0 <= i < module.len() implies replaced(path, '/', '.')[i] == module[i] by {
        assert(module.contains(module[i]));
    }
    assert(replaced(path, '/', '.') == module);
}

proof fn lemma_trim_end_keeps(s: Seq<char>, pat: Seq<char>)
    requires
        0 < pat.len(),
        pat.len() <= s.len() ==> s[s.len() - 1] != pat[pat.len() - 1],
    ensures
        trim_end(s, pat) == s,
{
    if pat.is_suffix_of(s) {
        assert(s.subrange(s.len() - pat.len(), s.len() as int)[pat.len() - 1] == s[s.len() - 1]);
    }
}

proof fn lemma_trim_end_drops(s: Seq<char>, pat: Seq<char>)
    requires
        0 < pat.len(),
    ensures
        trim_end(s + pat, pat) == trim_end(s, pat),
{
    let longer = s + pat;
    assert(longer.subrange(longer.len() - pat.len(), longer.len() as int) == pat);
    assert(longer.take(longer.len() - pat.len()) == s);
}

/// The module in the file that a module name stands for has that name. The extension of the file
/// holds neither dots nor slashes, and the name does not end with `init`.
pub proof fn module_is_read_from_its_path(module: Seq<char>, ext: Seq<char>)
    requires
        is_plain_module(module),
        !"init"@.is_suffix_of(module),
        0 < ext.len(),
        !ext.contains('.'),
        !ext.contains('/'),
    ensures
        module_name(path_of_module(module) + ("."@ + ext)) == module,
{
    reveal_strlit(".");
    reveal_strlit("/");
    reveal_strlit("init");
    reveal_strlit("init.");
    assert("."@ == seq!['.']);
    assert("/"@ == seq!['/']);
    let stem = path_of_module(module);
    let path = stem + ("."@ + ext);
    lemma_plain_path(module);
    assert(path == stem + seq!['.'] + ext);
    extension_is_what_was_appended(stem, ext);
    let init = "init."@ + ext;
    assert(!init.is_suffix_of(path)) by {
        if init.is_suffix_of(path) {
            let end = path.subrange(path.len() - init.len(), path.len() as int);
            let from = module.len() - 4;
            assert(0 <= from);
            assert forall|i: int| 0 <= i < 4 implies module.subrange(
                from,
                module.len() as int,
            )[i] == "init"@[i] by {
                assert(end[i] == init[i]);
                assert(stem[from + i] == "init"@[i]);
            }
            assert(module.subrange(from, module.len() as int) == "init"@);
        }
    }
    assert(trim_end(path, init) == path);
    let dot = "."@ + ext;
    lemma_trim_end_drops(stem, dot);
    assert(!dot.is_suffix_of(stem)) by {
        if dot.is_suffix_of(stem) {
            assert(stem.subrange(stem.len() - dot.len(), stem.len() as int)[0] == '.');
            assert(stem[stem.len() - dot.len()] == '.');
        }
    }
    assert(trim_end(stem, dot) == stem);
    lemma_trim_end_keeps(stem, "/"@);
}

/// The module in the `init.lua` that a module name stands for has that name.
pub proof fn module_is_read_from_its_init_path(module: Seq<char>)
    requires
        is_plain_module(module),
    ensures
        module_name(joined(path_of_module(module), "init.lua"@)) == module,
{
    reveal_strlit(".");
    reveal_strlit("/");
    reveal_strlit("init.");
    reveal_strlit("lua");
    reveal_strlit("init.lua");
    assert("."@ == seq!['.']);
    assert("/"@ == seq!['/']);
    let stem = path_of_module(module);
    let path = joined(stem, "init.lua"@);
    lemma_plain_path(module);
    let dir = stem.push('/');
    assert(path == dir + "init.lua"@);
    let before = dir + seq!['i', 'n', 'i', 't'];
    assert(before.last() == 't');
    assert(path == before + seq!['.'] + "lua"@);
    extension_is_what_was_appended(before, "lua"@);
    assert("init."@ + "lua"@ == "init.lua"@);
    lemma_trim_end_drops(dir, "init.lua"@);
    lemma_trim_end_keeps(dir, "init.lua"@);
    lemma_trim_end_keeps(dir, "."@ + "lua"@);
    assert(dir == stem + "/"@);
    lemma_trim_end_drops(stem, "/"@);
    lemma_trim_end_keeps(stem, "/"@);
}

/// The path of a module below another is the path of the one below that of the other.
pub proof fn path_of_joined_module(a: Seq<char>, b: Seq<char>)
    ensures
        path_of_module(a + "."@ + b) == path_of_module(a) + "/"@ + path_of_module(b),
{
    reveal_strlit(".");
    reveal_strlit("/");
    assert(path_of_module(a + "."@ + b) == path_of_module(a) + "/"@ + path_of_module(b));
}

impl LuaModule {
    /// The path of the Lua file of the module.
    pub fn to_lua_path(&self) -> (r: String)
        ensures
            r@ == path_of_module(self@) + ".lua"@,
    {
        self.to_file_path(".lua")
    }

    /// The path of the `init.lua` of the module.
    pub fn to_lua_init_path(&self) -> (r: String)
        ensures
            r@ == joined(path_of_module(self@), "init.lua"@),
    {
        path_join(self.to_path_buf().as_str(), "init.lua")
    }

    /// The path of the dynamic library of the module, of which `dylib_extension` is the extension.
    pub fn to_lib_path(&self, dylib_extension: &str) -> (r: String)
        ensures
            r@ == path_of_module(self@) + ("."@ + dylib_extension@),
    {
        self.to_file_path(concat(".", dylib_extension).as_str())
    }

    fn to_path_buf(&self) -> (r: String)
        ensures
            r@ == path_of_module(self@),
    {
        replace_char(self.0.as_str(), '.', '/')
    }

    /// The path of the module with `extension` at its end.
    pub fn to_file_path(&self, extension: &str) -> (r: String)
        ensures
            r@ == path_of_module(self@) + extension@,
    {
        concat(self.to_path_buf().as_str(), extension)
    }

    /// The module in the file `path`.
    pub fn from_pathbuf(path: String) -> (r: Result<LuaModule, ParseLuaModuleError>)
        ensures
            match r {
                Ok(module) => 0 < module_name(path@).len() && module@ == module_name(path@),
                Err(ParseLuaModuleError::EmptyModule(text)) => module_name(path@).len() == 0
                    && is_slash_text(path@, text@),
                Err(ParseLuaModuleError::FromString(_)) => false,
            },
    {
        let extension = match path_extension(path.as_str()) {
            Some(ext) => ext,
            None => String::new(),
        };
        let init = concat("init.", extension.as_str());
        let dot = concat(".", extension.as_str());
        let stem = trim_end_matches(
            trim_end_matches(path.as_str(), init.as_str()).as_str(),
            dot.as_str(),
        );
        let module = replace_char(trim_end_matches(stem.as_str(), "/").as_str(), '/', '.');
        if module.as_str().is_empty() {
            Err(ParseLuaModuleError::EmptyModule(to_slash_lossy(path.as_str())))
        } else {
            Ok(LuaModule(module))
        }
    }

    /// The module with the name `s`, unless that is empty.
    pub fn from_str(s: &str) -> (r: Result<LuaModule, ParseLuaModuleError>)
        ensures
            match r {
                Ok(module) => 0 < s@.len() && module@ == s@,
                Err(ParseLuaModuleError::EmptyModule(text)) => s@.len() == 0 && text@ == s@,
                Err(ParseLuaModuleError::FromString(_)) => false,
            },
    {
        if s.is_empty() {
            Err(ParseLuaModuleError::EmptyModule(copy(s)))
        } else {
            Ok(LuaModule(copy(s)))
        }
    }

    /// The module `other` below this one.
    pub fn join(&self, other: &LuaModule) -> (r: LuaModule)
        ensures
            r@ == self@ + "."@ + other@,
    {
        LuaModule(concat(concat(self.0.as_str(), ".").as_str(), other.0.as_str()))
    }

    /// The name of the module.
    pub fn as_str(&self) -> (r: &str)
        ensures
            r@ == self@,
    {
        self.0.as_str()
    }

    /// The name of the module as a Lua value.
    pub fn display_lua_value(&self) -> (r: DisplayLuaValue)
        ensures
            shows_text(r, self@),
    {
        DisplayLuaValue::String(copy(self.0.as_str()))
    }
}

/// What a module of the builtin backend is made of.
#[derive(Debug, PartialEq, Clone)]
pub enum ModuleSpec {
    /// Pathname of a Lua file or C source, for modules based on a single source file.
    SourcePath(String),
    /// Pathnames of C sources of a simple module written in C composed of multiple files.
    SourcePaths(Vec<String>),
    ModulePaths(ModulePaths),
}

/// What a module of the builtin backend is made of, as a rockspec says it.
#[derive(Debug, PartialEq, Clone)]
pub enum ModuleSpecInternal {
    SourcePath(String),
    SourcePaths(Vec<String>),
    ModulePaths(ModulePathsInternal),
}

/// The files, libraries and defines of a module written in C.
#[derive(Debug, PartialEq, Clone)]
pub struct ModulePaths {
    /// Path names of C sources, mandatory field
    pub sources: Vec<String>,
    /// External libraries to be linked
    pub libraries: Vec<String>,
    /// C defines, e.g. { "FOO=bar", "USE_BLA" }
    pub defines: Vec<(String, Option<String>)>,
    /// Directories to be added to the compiler's headers lookup directory list.
    pub incdirs: Vec<String>,
    /// Directories to be added to the linker's library lookup directory list.
    pub libdirs: Vec<String>,
}

/// [`ModulePaths`] in which the sources may still be missing.
#[derive(Debug, PartialEq, Clone)]
pub struct ModulePathsInternal {
    pub sources: Vec<String>,
    pub libraries: Vec<String>,
    pub defines: Vec<(String, Option<String>)>,
    pub incdirs: Vec<String>,
    pub libdirs: Vec<String>,
}

/// A platform override replaces a module by one of another kind.
#[derive(Debug)]
pub struct ModuleSpecAmbiguousPlatformOverride;

/// A module has nothing to override.
#[derive(Debug)]
pub struct BuildModulesPlatformOverride;

/// A module has no sources.
#[derive(Debug)]
pub struct ModulePathsMissingSources;

impl ModuleSpecAmbiguousPlatformOverride {
    /// The message of the error.
    pub fn to_message(&self) -> (r: String)
        ensures
            r@ == "cannot resolve ambiguous platform override for `build.modules`."@,
    {
        copy("cannot resolve ambiguous platform override for `build.modules`.")
    }
}

impl BuildModulesPlatformOverride {
    /// The message of the error.
    pub fn to_message(&self) -> (r: String)
        ensures
            r@ == "could not resolve platform override for `build.modules`. THIS IS A BUG!"@,
    {
        copy("could not resolve platform override for `build.modules`. THIS IS A BUG!")
    }
}

impl ModulePathsMissingSources {
    /// The message of the error.
    pub fn to_message(&self) -> (r: String)
        ensures
            r@ == "missing or empty field `sources`"@,
    {
        copy("missing or empty field `sources`")
    }
}

/// The paths are those of `internal`.
pub open spec fn same_module_paths(paths: ModulePaths, internal: ModulePathsInternal) -> bool {
    &&& paths.sources == internal.sources
    &&& paths.libraries == internal.libraries
    &&& paths.defines == internal.defines
    &&& paths.incdirs == internal.incdirs
    &&& paths.libdirs == internal.libdirs
}

/// The module lacks its sources.
pub open spec fn lacks_sources(internal: ModuleSpecInternal) -> bool {
    internal matches ModuleSpecInternal::ModulePaths(paths) && paths.sources@.len() == 0
}

/// The module is the one that `internal` says.
pub open spec fn same_module(spec: ModuleSpec, internal: ModuleSpecInternal) -> bool {
    match (spec, internal) {
        (ModuleSpec::SourcePath(a), ModuleSpecInternal::SourcePath(b)) => a == b,
        (ModuleSpec::SourcePaths(a), ModuleSpecInternal::SourcePaths(b)) => a == b,
        (ModuleSpec::ModulePaths(a), ModuleSpecInternal::ModulePaths(b)) => same_module_paths(a, b),
        _ => false,
    }
}

impl ModuleSpec {
    /// The module that `internal` says, unless it lacks its sources.
    pub fn from_internal(internal: ModuleSpecInternal) -> (r: Result<
        ModuleSpec,
        ModulePathsMissingSources,
    >)
        ensures
            match r {
                Ok(spec) => !lacks_sources(internal) && same_module(spec, internal),
                Err(_) => lacks_sources(internal),
            },
    {
        match internal {
            ModuleSpecInternal::SourcePath(path) => Ok(ModuleSpec::SourcePath(path)),
            ModuleSpecInternal::SourcePaths(paths) => Ok(ModuleSpec::SourcePaths(paths)),
            ModuleSpecInternal::ModulePaths(module_paths) => {
                match ModulePaths::from_internal(module_paths) {
                    Ok(paths) => Ok(ModuleSpec::ModulePaths(paths)),
                    Err(err) => Err(err),
                }
            },
        }
    }
}

impl ModulePaths {
    /// The paths that `internal` says, unless the sources are missing.
    pub fn from_internal(internal: ModulePathsInternal) -> (r: Result<
        ModulePaths,
        ModulePathsMissingSources,
    >)
        ensures
            match r {
                Ok(paths) => 0 < internal.sources@.len() && same_module_paths(paths, internal),
                Err(_) => internal.sources@.len() == 0,
            },
    {
        if internal.sources.is_empty() {
            Err(ModulePathsMissingSources)
        } else {
            Ok(
                ModulePaths {
                    sources: internal.sources,
                    libraries: internal.libraries,
                    defines: internal.defines,
                    incdirs: internal.incdirs,
                    libdirs: internal.libdirs,
                },
            )
        }
    }
}

/// The override, unless it is empty.
pub open spec fn overridden_vec<T>(over: Vec<T>, base: Vec<T>) -> Vec<T> {
    if over@.len() == 0 {
        base
    } else {
        over
    }
}

/// The override, unless it is empty.
pub fn override_vec<T>(over: Vec<T>, base: Vec<T>) -> (r: Vec<T>)
    ensures
        r == overridden_vec(over, base),
{
    if over.is_empty() {
        base
    } else {
        over
    }
}

/// The lists of `over` that are not empty, and those of `base` in place of the others.
pub open spec fn overridden_paths(
    base: ModulePathsInternal,
    over: ModulePathsInternal,
) -> ModulePathsInternal {
    ModulePathsInternal {
        sources: overridden_vec(over.sources, base.sources),
        libraries: overridden_vec(over.libraries, base.libraries),
        defines: overridden_vec(over.defines, base.defines),
        incdirs: overridden_vec(over.incdirs, base.incdirs),
        libdirs: overridden_vec(over.libdirs, base.libdirs),
    }
}

/// The module that a base module and a platform override of it make: the base counts, and an
/// override adds the lists that are empty in the base. The two must be of one kind.
pub open spec fn overridden_module(
    base: ModuleSpecInternal,
    over: ModuleSpecInternal,
) -> Option<ModuleSpecInternal> {
    match (base, over) {
        (ModuleSpecInternal::SourcePath(_), ModuleSpecInternal::SourcePath(_)) => Some(base),
        (ModuleSpecInternal::SourcePaths(_), ModuleSpecInternal::SourcePaths(_)) => Some(base),
        (ModuleSpecInternal::ModulePaths(b), ModuleSpecInternal::ModulePaths(a)) => Some(
            ModuleSpecInternal::ModulePaths(overridden_paths(a, b)),
        ),
        _ => None,
    }
}

impl ModuleSpecInternal {
    /// This module with the platform override `override_spec`.
    pub fn apply_overrides(self, override_spec: Self) -> (r: Result<
        Self,
        ModuleSpecAmbiguousPlatformOverride,
    >)
        ensures
            match r {
                Ok(spec) => overridden_module(self, override_spec) == Some(spec),
                Err(_) => overridden_module(self, override_spec) is None,
            },
    {
        match (override_spec, self) {
            (ModuleSpecInternal::SourcePath(_), ModuleSpecInternal::SourcePath(b)) => Ok(
                ModuleSpecInternal::SourcePath(b),
            ),
            (ModuleSpecInternal::SourcePaths(_), ModuleSpecInternal::SourcePaths(b)) => Ok(
                ModuleSpecInternal::SourcePaths(b),
            ),
            (ModuleSpecInternal::ModulePaths(a), ModuleSpecInternal::ModulePaths(b)) => Ok(
                ModuleSpecInternal::ModulePaths(a.apply_overrides(b)),
            ),
            _ => Err(ModuleSpecAmbiguousPlatformOverride),
        }
    }

    /// The module as a Lua value.
    pub fn display_lua_value(&self) -> (r: DisplayLuaValue)
        ensures
            shows_module(r, *self),
    {
        match self {
            ModuleSpecInternal::SourcePath(path) => DisplayLuaValue::String(copy(path.as_str())),
            ModuleSpecInternal::SourcePaths(paths) => display_list(paths),
            ModuleSpecInternal::ModulePaths(module_paths) => module_paths.display_lua_value(),
        }
    }

    /// The module that a value of a rockspec says.
    pub fn from_value(value: ModuleValue) -> (r: Result<ModuleSpecInternal, String>)
        ensures
            match value {
                ModuleValue::Text(path) => r == Ok::<ModuleSpecInternal, String>(
                    ModuleSpecInternal::SourcePath(path),
                ),
                ModuleValue::List(Ok(paths)) => r == Ok::<ModuleSpecInternal, String>(
                    ModuleSpecInternal::SourcePaths(paths),
                ),
                ModuleValue::Table(Ok(paths)) => r == Ok::<ModuleSpecInternal, String>(
                    ModuleSpecInternal::ModulePaths(paths),
                ),
                ModuleValue::List(Err(err)) => r == Err::<ModuleSpecInternal, String>(err),
                ModuleValue::Table(Err(err)) => r == Err::<ModuleSpecInternal, String>(err),
                ModuleValue::Other(text) => r is Err && r->Err_0@
                    == "expected a string, list, or table for module spec, got: "@ + text@,
            },
    {
        match value {
            ModuleValue::Text(path) => Ok(ModuleSpecInternal::SourcePath(path)),
            ModuleValue::List(Ok(paths)) => Ok(ModuleSpecInternal::SourcePaths(paths)),
            ModuleValue::List(Err(err)) => Err(err),
            ModuleValue::Table(Ok(paths)) => Ok(ModuleSpecInternal::ModulePaths(paths)),
            ModuleValue::Table(Err(err)) => Err(err),
            ModuleValue::Other(text) => Err(
                concat("expected a string, list, or table for module spec, got: ", text.as_str()),
            ),
        }
    }
}

/// A value that stands for a module in a rockspec.
#[derive(Debug)]
pub enum ModuleValue {
    /// A string
    Text(String),
    /// A list, read as paths
    List(Result<Vec<String>, String>),
    /// A table, read by its fields
    Table(Result<ModulePathsInternal, String>),
    /// Another value, with its text
    Other(String),
}

impl ModulePathsInternal {
    /// These paths with the override `override_spec`.
    pub fn apply_overrides(self, override_spec: Self) -> (r: Self)
        ensures
            r == overridden_paths(self, override_spec),
    {
        ModulePathsInternal {
            sources: override_vec(override_spec.sources, self.sources),
            libraries: override_vec(override_spec.libraries, self.libraries),
            defines: override_vec(override_spec.defines, self.defines),
            incdirs: override_vec(override_spec.incdirs, self.incdirs),
            libdirs: override_vec(override_spec.libdirs, self.libdirs),
        }
    }

    /// The paths as a Lua table.
    pub fn display_lua_value(&self) -> (r: DisplayLuaValue)
        ensures
            shows_paths(r, *self),
    {
        let mut all: Vec<DisplayLuaKV> = Vec::new();
        all.push(DisplayLuaKV { key: copy("sources"), value: display_list(&self.sources) });
        all.push(DisplayLuaKV { key: copy("libraries"), value: display_list(&self.libraries) });
        all.push(
            DisplayLuaKV {
                key: copy("defines"),
                value: display_list(&display_definitions(&self.defines)),
            },
        );
        all.push(DisplayLuaKV { key: copy("incdirs"), value: display_list(&self.incdirs) });
        all.push(DisplayLuaKV { key: copy("libdirs"), value: display_list(&self.libdirs) });
        DisplayLuaValue::Table(all)
    }
}

/// The entry has the key `key` and a list of the strings `all`.
pub open spec fn shows_field(kv: DisplayLuaKV, key: Seq<char>, all: Seq<Seq<char>>) -> bool {
    kv.key@ == key && shows_list(kv.value, all)
}

/// The value is the table of the paths.
pub open spec fn shows_paths(value: DisplayLuaValue, paths: ModulePathsInternal) -> bool {
    &&& value matches DisplayLuaValue::Table(all)
    &&& all@.len() == 5
    &&& shows_field(all@[0], "sources"@, texts(paths.sources@))
    &&& shows_field(all@[1], "libraries"@, texts(paths.libraries@))
    &&& shows_field(all@[2], "defines"@, definition_texts(paths.defines@))
    &&& shows_field(all@[3], "incdirs"@, texts(paths.incdirs@))
    &&& shows_field(all@[4], "libdirs"@, texts(paths.libdirs@))
}

/// The value is that of the module.
pub open spec fn shows_module(value: DisplayLuaValue, spec: ModuleSpecInternal) -> bool {
    match spec {
        ModuleSpecInternal::SourcePath(path) => shows_text(value, path@),
        ModuleSpecInternal::SourcePaths(paths) => shows_list(value, texts(paths@)),
        ModuleSpecInternal::ModulePaths(paths) => shows_paths(value, paths),
    }
}

/// A definition as it is written, `KEY=value` or `KEY`.
pub open spec fn definition_text(definition: (String, Option<String>)) -> Seq<char> {
    match definition.1 {
        Some(value) => definition.0@ + "="@ + value@,
        None => definition.0@,
    }
}

/// The definitions as they are written.
pub open spec fn definition_texts(all: Seq<(String, Option<String>)>) -> Seq<Seq<char>> {
    all.map_values(|definition: (String, Option<String>)| definition_text(definition))
}

/// The definition is the one that `text` says: it has a value where `text` has an equals sign,
/// and the first one ends the key.
pub open spec fn is_definition(text: Seq<char>, definition: (String, Option<String>)) -> bool {
    match definition.1 {
        Some(value) => splits_once(text, '=', definition.0@, value@),
        None => !text.contains('=') && definition.0@ == text,
    }
}

/// A definition that was read is written as it was.
pub proof fn definition_is_written_as_read(text: Seq<char>, definition: (String, Option<String>))
    requires
        is_definition(text, definition),
    ensures
        definition_text(definition) == text,
{
    reveal_strlit("=");
    assert("="@ == seq!['=']);
}

/// A definition whose key has no equals sign is read as it was written.
pub proof fn definition_is_read_as_written(definition: (String, Option<String>))
    requires
        !definition.0@.contains('='),
    ensures
        is_definition(definition_text(definition), definition),
{
    reveal_strlit("=");
    assert("="@ == seq!['=']);
}

/// The definitions that the strings say.
pub fn deserialize_definitions(values: &Vec<String>) -> (r: Vec<(String, Option<String>)>)
    ensures
        r@.len() == values@.len(),
        forall|i: int| 0 <= i < r@.len() ==> is_definition(values@[i]@, #[trigger] r@[i]),
{
    let mut r: Vec<(String, Option<String>)> = Vec::new();
    let mut i: usize = 0;
    while i < values.len()
        invariant
            i <= values@.len(),
            r@.len() == i,
            forall|k: int| 0 <= k < i ==> is_definition(values@[k]@, #[trigger] r@[k]),
        decreases values@.len() - i,
    {
        let value = &values[i];
        match split_once(value.as_str(), '=') {
            Some((key, value)) => r.push((key, Some(value))),
            None => r.push((copy(value.as_str()), None)),
        }
        i = i + 1;
    }
    r
}

/// The definitions as they are written.
fn display_definitions(all: &Vec<(String, Option<String>)>) -> (r: Vec<String>)
    ensures
        texts(r@) == definition_texts(all@),
{
    let mut r: Vec<String> = Vec::new();
    let mut i: usize = 0;
    while i < all.len()
        invariant
            i <= all@.len(),
            r@.len() == i,
            forall|k: int| 0 <= k < i ==> (#[trigger] r@[k])@ == definition_text(all@[k]),
        decreases all@.len() - i,
    {
        let definition = &all[i];
        match &definition.1 {
            Some(value) => r.push(
                concat(concat(definition.0.as_str(), "=").as_str(), value.as_str()),
            ),
            None => r.push(copy(definition.0.as_str())),
        }
        i = i + 1;
    }
    assert(texts(r@) == definition_texts(all@));
    r
}

/// The value is the table of the modules and their paths, in table order.
pub open spec fn shows_module_table(
    value: DisplayLuaValue,
    entries: Seq<(LuaModule, String)>,
) -> bool {
    value matches DisplayLuaValue::Table(all) && all@.len() == entries.len() && forall|i: int|
        0 <= i < entries.len() ==> #[trigger] shows_module_entry(all@[i], entries[i])
}

/// The entry has the name of the module as its key and the path with slashes as its value.
pub open spec fn shows_module_entry(kv: DisplayLuaKV, entry: (LuaModule, String)) -> bool {
    &&& kv.key@ == entry.0@
    &&& kv.value matches DisplayLuaValue::String(text)
    &&& is_slash_text(entry.1@, text@)
}

/// The modules and their paths as a Lua table.
pub fn display_module_table(table: &Table<LuaModule, String>) -> (r: DisplayLuaValue)
    ensures
        shows_module_table(r, table.entries()),
{
    let mut all: Vec<DisplayLuaKV> = Vec::new();
    let mut i: usize = 0;
    while i < table.len()
        invariant
            i <= table.entries().len(),
            all@.len() == i,
            forall|k: int|
                0 <= k < i ==> #[trigger] shows_module_entry(all@[k], table.entries()[k]),
        decreases table.entries().len() - i,
    {
        let entry = table.entry(i);
        all.push(
            DisplayLuaKV {
                key: copy(entry.0.as_str()),
                value: DisplayLuaValue::String(to_slash_lossy(entry.1.as_str())),
            },
        );
        assert(shows_module_entry(all@[i as int], table.entries()[i as int]));
        i = i + 1;
    }
    DisplayLuaValue::Table(all)
}

/// The path of a file of a module has a slash for each dot of the module and is the module
/// otherwise, with the ending behind it.
pub proof fn module_path_has_slashes_for_dots(
    module: &LuaModule,
    ending: &str,
    file: String,
    lua: String,
    dylib_extension: &str,
    lib: String,
)
    requires
        call_ensures(LuaModule::to_file_path, (module, ending), file),
        call_ensures(LuaModule::to_lua_path, (module,), lua),
        call_ensures(LuaModule::to_lib_path, (module, dylib_extension), lib),
    ensures
        file@.len() == module@.len() + ending@.len(),
        forall|i: int|
            0 <= i < module@.len() ==> #[trigger] file@[i] == if module@[i] == '.' {
                '/'
            } else {
                module@[i]
            },
        ending@ == file@.skip(module@.len() as int),
        lua@ == file@.take(module@.len() as int) + ".lua"@,
        lib@ == file@.take(module@.len() as int) + "."@ + dylib_extension@,
{
    let path = path_of_module(module@);
    assert((path + ending@).skip(path.len() as int) == ending@);
    assert((path + ending@).take(path.len() as int) == path);
    assert(path + ("."@ + dylib_extension@) == path + "."@ + dylib_extension@);
}

/// The path of the `init.lua` of a module is the module's path with `init.lua` below it.
pub proof fn init_path_is_below_the_module(module: &LuaModule, none: &str, dir: String, init: String)
    requires
        0 < module@.len(),
        module@.last() != '/',
        module@.last() != '.',
        none@.len() == 0,
        call_ensures(LuaModule::to_file_path, (module, none), dir),
        call_ensures(LuaModule::to_lua_init_path, (module,), init),
    ensures
        init@ == dir@ + "/init.lua"@,
{
    reveal_strlit("init.lua");
    reveal_strlit("/init.lua");
    assert("/init.lua"@ == seq!['/'] + "init.lua"@);
    let path = path_of_module(module@);
    assert(path + none@ == path);
    assert(path.push('/') + "init.lua"@ == path + "/init.lua"@);
}

/// A module is read off the path of its file and off the path of its `init.lua`.
pub proof fn module_is_read_off_its_paths(
    module: &LuaModule,
    lua: String,
    init: String,
    a: Result<LuaModule, ParseLuaModuleError>,
    b: Result<LuaModule, ParseLuaModuleError>,
)
    requires
        call_ensures(LuaModule::to_lua_path, (module,), lua),
        call_ensures(LuaModule::to_lua_init_path, (module,), init),
        call_ensures(LuaModule::from_pathbuf, (lua,), a),
        call_ensures(LuaModule::from_pathbuf, (init,), b),
        0 < module@.len(),
        !module@.contains('/'),
        module@.last() != '.',
    ensures
        b is Ok,
        b->Ok_0@ == module@,
        !"init"@.is_suffix_of(module@) ==> a is Ok && a->Ok_0@ == module@,
{
    reveal_strlit("lua");
    reveal_strlit(".lua");
    reveal_strlit(".");
    assert(".lua"@ == "."@ + "lua"@);
    module_is_read_from_its_init_path(module@);
    if !"init"@.is_suffix_of(module@) {
        module_is_read_from_its_path(module@, "lua"@);
    }
}

/// A library's module is read off the path of the library.
pub proof fn module_is_read_off_its_library(
    module: &LuaModule,
    dylib_extension: &str,
    lib: String,
    r: Result<LuaModule, ParseLuaModuleError>,
)
    requires
        call_ensures(LuaModule::to_lib_path, (module, dylib_extension), lib),
        call_ensures(LuaModule::from_pathbuf, (lib,), r),
        0 < module@.len(),
        !module@.contains('/'),
        module@.last() != '.',
        !"init"@.is_suffix_of(module@),
        0 < dylib_extension@.len(),
        !dylib_extension@.contains('.'),
        !dylib_extension@.contains('/'),
    ensures
        r is Ok,
        r->Ok_0@ == module@,
{
    module_is_read_from_its_path(module@, dylib_extension@);
}

/// A module that is read off a path is not empty and holds no slash. A path or a name without a
/// module is reported.
pub proof fn read_modules_hold_no_slash(
    path: String,
    r: Result<LuaModule, ParseLuaModuleError>,
    s: &str,
    named: Result<LuaModule, ParseLuaModuleError>,
)
    requires
        call_ensures(LuaModule::from_pathbuf, (path,), r),
        call_ensures(LuaModule::from_str, (s,), named),
    ensures
        r is Ok ==> 0 < r->Ok_0@.len() && !r->Ok_0@.contains('/'),
        r is Err ==> r->Err_0 is EmptyModule && is_slash_text(path@, r->Err_0->EmptyModule_0@),
        named is Ok <==> 0 < s@.len(),
        named is Ok ==> named->Ok_0@ == s@,
        named is Err ==> named->Err_0 is EmptyModule && named->Err_0->EmptyModule_0@.len() == 0,
{
    if r is Ok {
        let name = r->Ok_0@;
        assert(!name.contains('/')) by {
            if name.contains('/') {
                let i = choose|i: int| 0 <= i < name.len() && name[i] == '/';
                assert(name[i] != '/');
            }
        }
    }
}

/// A joined module is the one, a dot, and the other; its path is the path of the one and that of
/// the other below it. What a module is written and displayed as is its name.
pub proof fn joined_module_is_below(
    a: &LuaModule,
    b: &LuaModule,
    r: LuaModule,
    joined_module: &LuaModule,
    none: &str,
    paths: (String, String, String),
    text: &str,
    shown: DisplayLuaValue,
)
    requires
        call_ensures(LuaModule::join, (a, b), r),
        *joined_module == r,
        none@.len() == 0,
        call_ensures(LuaModule::to_file_path, (a, none), paths.0),
        call_ensures(LuaModule::to_file_path, (b, none), paths.1),
        call_ensures(LuaModule::to_file_path, (joined_module, none), paths.2),
        call_ensures(LuaModule::as_str, (a,), text),
        call_ensures(LuaModule::display_lua_value, (a,), shown),
    ensures
        r@ == a@ + "."@ + b@,
        paths.2@ == paths.0@ + "/"@ + paths.1@,
        text@ == a@,
        shown is String,
        shown->String_0@ == a@,
{
    path_of_joined_module(a@, b@);
    assert(path_of_module(a@) + none@ == path_of_module(a@));
    assert(path_of_module(b@) + none@ == path_of_module(b@));
    assert(path_of_module(r@) + none@ == path_of_module(r@));
}

/// A module keeps its kind and all its lists, and is refused exactly if it is a C module without
/// sources.
pub proof fn module_keeps_its_lists(
    internal: ModuleSpecInternal,
    r: Result<ModuleSpec, ModulePathsMissingSources>,
    paths: ModulePathsInternal,
    kept: Result<ModulePaths, ModulePathsMissingSources>,
)
    requires
        call_ensures(ModuleSpec::from_internal, (internal,), r),
        call_ensures(ModulePaths::from_internal, (paths,), kept),
    ensures
        internal is SourcePath ==> r == Ok::<ModuleSpec, ModulePathsMissingSources>(
            ModuleSpec::SourcePath(internal->SourcePath_0),
        ),
        internal is SourcePaths ==> r == Ok::<ModuleSpec, ModulePathsMissingSources>(
            ModuleSpec::SourcePaths(internal->SourcePaths_0),
        ),
        internal is ModulePaths ==> {
            &&& r is Ok <==> 0 < internal->ModulePaths_0.sources@.len()
            &&& r is Ok ==> {
                &&& r->Ok_0 is ModulePaths
                &&& r->Ok_0->ModulePaths_0.sources == internal->ModulePaths_0.sources
                &&& r->Ok_0->ModulePaths_0.libraries == internal->ModulePaths_0.libraries
                &&& r->Ok_0->ModulePaths_0.defines == internal->ModulePaths_0.defines
                &&& r->Ok_0->ModulePaths_0.incdirs == internal->ModulePaths_0.incdirs
                &&& r->Ok_0->ModulePaths_0.libdirs == internal->ModulePaths_0.libdirs
            }
        },
        kept is Ok <==> 0 < paths.sources@.len(),
        kept is Ok ==> {
            &&& kept->Ok_0.sources == paths.sources
            &&& kept->Ok_0.libraries == paths.libraries
            &&& kept->Ok_0.defines == paths.defines
            &&& kept->Ok_0.incdirs == paths.incdirs
            &&& kept->Ok_0.libdirs == paths.libdirs
        },
{
}

/// A list that is not empty overrides another one, and an empty one leaves it; so it is with each
/// list of a C module.
pub proof fn given_lists_override<T>(
    over: Vec<T>,
    base: Vec<T>,
    list: Vec<T>,
    paths: ModulePathsInternal,
    other: ModulePathsInternal,
    r: ModulePathsInternal,
)
    requires
        call_ensures(override_vec::<T>, (over, base), list),
        call_ensures(ModulePathsInternal::apply_overrides, (paths, other), r),
    ensures
        0 < over@.len() ==> list == over,
        over@.len() == 0 ==> list == base,
        0 < other.sources@.len() ==> r.sources == other.sources,
        other.sources@.len() == 0 ==> r.sources == paths.sources,
        0 < other.libraries@.len() ==> r.libraries == other.libraries,
        other.libraries@.len() == 0 ==> r.libraries == paths.libraries,
        0 < other.defines@.len() ==> r.defines == other.defines,
        other.defines@.len() == 0 ==> r.defines == paths.defines,
        0 < other.incdirs@.len() ==> r.incdirs == other.incdirs,
        other.incdirs@.len() == 0 ==> r.incdirs == paths.incdirs,
        0 < other.libdirs@.len() ==> r.libdirs == other.libdirs,
        other.libdirs@.len() == 0 ==> r.libdirs == paths.libdirs,
{
}

/// Overriding a module is refused exactly if the two are of different kinds. A source path and a
/// list of source paths stay. Each list of a C module stays, or is that of the override where it
/// is empty.
pub proof fn overridden_module_keeps_its_lists(
    base: ModuleSpecInternal,
    over: ModuleSpecInternal,
    r: Result<ModuleSpecInternal, ModuleSpecAmbiguousPlatformOverride>,
)
    requires
        call_ensures(ModuleSpecInternal::apply_overrides, (base, over), r),
    ensures
        r is Ok <==> (base is SourcePath && over is SourcePath) || (base is SourcePaths && over
            is SourcePaths) || (base is ModulePaths && over is ModulePaths),
        r is Ok && base is SourcePath ==> r->Ok_0 == base,
        r is Ok && base is SourcePaths ==> r->Ok_0 == base,
        r is Ok && base is ModulePaths ==> {
            let own = base->ModulePaths_0;
            let other = over->ModulePaths_0;
            let all = r->Ok_0->ModulePaths_0;
            &&& r->Ok_0 is ModulePaths
            &&& 0 < own.sources@.len() ==> all.sources == own.sources
            &&& own.sources@.len() == 0 ==> all.sources == other.sources
            &&& 0 < own.libraries@.len() ==> all.libraries == own.libraries
            &&& own.libraries@.len() == 0 ==> all.libraries == other.libraries
            &&& 0 < own.defines@.len() ==> all.defines == own.defines
            &&& own.defines@.len() == 0 ==> all.defines == other.defines
            &&& 0 < own.incdirs@.len() ==> all.incdirs == own.incdirs
            &&& own.incdirs@.len() == 0 ==> all.incdirs == other.incdirs
            &&& 0 < own.libdirs@.len() ==> all.libdirs == own.libdirs
            &&& own.libdirs@.len() == 0 ==> all.libdirs == other.libdirs
        },
{
}

/// A value of a module is read as what it is: a text as a source path, a list as source paths, a
/// table as a C module; what could not be read stays the error that it is.
pub proof fn module_value_is_read_as_it_is(
    value: ModuleValue,
    r: Result<ModuleSpecInternal, String>,
)
    requires
        call_ensures(ModuleSpecInternal::from_value, (value,), r),
    ensures
        value is Text ==> r is Ok && r->Ok_0 is SourcePath && r->Ok_0->SourcePath_0
            == value->Text_0,
        value is List && value->List_0 is Ok ==> r is Ok && r->Ok_0 is SourcePaths
            && r->Ok_0->SourcePaths_0 == value->List_0->Ok_0,
        value is List && value->List_0 is Err ==> r is Err && r->Err_0 == value->List_0->Err_0,
        value is Table && value->Table_0 is Ok ==> r is Ok && r->Ok_0 is ModulePaths
            && r->Ok_0->ModulePaths_0 == value->Table_0->Ok_0,
        value is Table && value->Table_0 is Err ==> r is Err && r->Err_0 == value->Table_0->Err_0,
        value is Other ==> r is Err && r->Err_0@
            == "expected a string, list, or table for module spec, got: "@ + value->Other_0@,
{
}

/// The value is a list of strings that says what the texts say.
pub open spec fn is_list_of(value: DisplayLuaValue, all: Seq<String>) -> bool {
    &&& value is List
    &&& value->List_0@.len() == all.len()
    &&& forall|i: int|
        0 <= i < all.len() ==> (#[trigger] value->List_0@[i]) is String
            && value->List_0@[i]->String_0@ == all[i]@
}

proof fn lemma_list_of(value: DisplayLuaValue, all: Seq<String>)
    requires
        shows_list(value, texts(all)),
    ensures
        is_list_of(value, all),
{
    assert(texts(all).len() == all.len());
    assert forall|i: int| 0 <= i < all.len() implies (#[trigger] value->List_0@[i]) is String
        && value->List_0@[i]->String_0@ == all[i]@ by {
        assert(shows_text(value->List_0@[i], texts(all)[i]));
    }
}

/// A module is displayed with all that it is made of: a source path as a string, source paths as
/// a list, and a C module as a table of its five lists.
pub proof fn module_is_displayed_whole(spec: &ModuleSpecInternal, r: DisplayLuaValue)
    requires
        call_ensures(ModuleSpecInternal::display_lua_value, (spec,), r),
    ensures
        spec is SourcePath ==> r is String && r->String_0@ == spec->SourcePath_0@,
        spec is SourcePaths ==> is_list_of(r, spec->SourcePaths_0@),
        spec is ModulePaths ==> {
            &&& r is Table
            &&& r->Table_0@.len() == 5
            &&& r->Table_0@[0].key@ == "sources"@
            &&& is_list_of(r->Table_0@[0].value, spec->ModulePaths_0.sources@)
            &&& r->Table_0@[1].key@ == "libraries"@
            &&& is_list_of(r->Table_0@[1].value, spec->ModulePaths_0.libraries@)
            &&& r->Table_0@[2].key@ == "defines"@
            &&& r->Table_0@[2].value is List
            &&& r->Table_0@[2].value->List_0@.len() == spec->ModulePaths_0.defines@.len()
            &&& r->Table_0@[3].key@ == "incdirs"@
            &&& is_list_of(r->Table_0@[3].value, spec->ModulePaths_0.incdirs@)
            &&& r->Table_0@[4].key@ == "libdirs"@
            &&& is_list_of(r->Table_0@[4].value, spec->ModulePaths_0.libdirs@)
        },
{
    match *spec {
        ModuleSpecInternal::SourcePath(_) => {},
        ModuleSpecInternal::SourcePaths(paths) => {
            lemma_list_of(r, paths@);
        },
        ModuleSpecInternal::ModulePaths(paths) => {
            let all = r->Table_0@;
            lemma_list_of(all[0].value, paths.sources@);
            lemma_list_of(all[1].value, paths.libraries@);
            lemma_list_of(all[3].value, paths.incdirs@);
            lemma_list_of(all[4].value, paths.libdirs@);
            assert(definition_texts(paths.defines@).len() == paths.defines@.len());
        },
    }
}

/// A definition is displayed as its name, and with a value as its name, an equals sign and its
/// value.
pub proof fn definitions_are_displayed(paths: &ModulePathsInternal, r: DisplayLuaValue, i: int)
    requires
        call_ensures(ModulePathsInternal::display_lua_value, (paths,), r),
        0 <= i < paths.defines@.len(),
    ensures
        r is Table,
        ({
            let shown = r->Table_0@[2].value->List_0@[i];
            &&& shown is String
            &&& paths.defines@[i].1 is Some ==> shown->String_0@ == paths.defines@[i].0@ + seq!['=']
                + paths.defines@[i].1->0@
            &&& paths.defines@[i].1 is None ==> shown->String_0@ == paths.defines@[i].0@
        }),
{
    reveal_strlit("=");
    assert("="@ == seq!['=']);
    let all = definition_texts(paths.defines@);
    let value = r->Table_0@[2].value;
    assert(shows_field(r->Table_0@[2], "defines"@, all));
    assert(shows_text(value->List_0@[i], all[i]));
}

/// Each definition is read from its text: the name stands before the first equals sign and the
/// value behind it. A text without one is a name without a value.
pub proof fn definitions_are_split_at_the_first_equals_sign(
    values: &Vec<String>,
    r: Vec<(String, Option<String>)>,
    i: int,
)
    requires
        call_ensures(deserialize_definitions, (values,), r),
        0 <= i < values@.len(),
    ensures
        r@.len() == values@.len(),
        !r@[i].0@.contains('='),
        values@[i]@.contains('=') <==> r@[i].1 is Some,
        r@[i].1 is Some ==> values@[i]@ == r@[i].0@ + seq!['='] + r@[i].1->0@,
        r@[i].1 is None ==> values@[i]@ == r@[i].0@,
{
    assert(is_definition(values@[i]@, r@[i]));
    if r@[i].1 is Some {
        assert(values@[i]@[r@[i].0@.len() as int] == '=');
    }
}

/// A refused module is reported with the text that it was read from.
pub proof fn refused_modules_are_reported(
    from: &ParseLuaModuleError,
    empty: &ParseLuaModuleError,
    a: String,
    b: String,
)
    requires
        *from is FromString,
        *empty is EmptyModule,
        call_ensures(ParseLuaModuleError::to_message, (from,), a),
        call_ensures(ParseLuaModuleError::to_message, (empty,), b),
    ensures
        a@ == "could not parse Lua module from '"@ + from->FromString_0@ + "'."@,
        b@ == "path '"@ + empty->EmptyModule_0@ + "' resulted in an empty Lua module."@,
{
}

/// Every module of an install table is displayed under its name with its path.
pub proof fn every_installed_module_is_displayed(
    table: &Table<LuaModule, String>,
    r: DisplayLuaValue,
    i: int,
)
    requires
        call_ensures(display_module_table, (table,), r),
    ensures
        r is Table,
        r->Table_0@.len() == table.entries().len(),
        0 <= i < table.entries().len() ==> {
            &&& r->Table_0@[i].key@ == table.entries()[i].0@
            &&& r->Table_0@[i].value is String
            &&& is_slash_text(table.entries()[i].1@, r->Table_0@[i].value->String_0@)
        },
{
    if 0 <= i < table.entries().len() {
        assert(shows_module_entry(r->Table_0@[i], table.entries()[i]));
    }
}

/// The errors of modules say what is wrong.
pub proof fn module_errors_say_what_is_wrong(
    a: &ModuleSpecAmbiguousPlatformOverride,
    b: &BuildModulesPlatformOverride,
    c: &ModulePathsMissingSources,
    r: (String, String, String),
)
    requires
        call_ensures(ModuleSpecAmbiguousPlatformOverride::to_message, (a,), r.0),
        call_ensures(BuildModulesPlatformOverride::to_message, (b,), r.1),
        call_ensures(ModulePathsMissingSources::to_message, (c,), r.2),
    ensures
        r.0@ == "cannot resolve ambiguous platform override for `build.modules`."@,
        r.1@ == "could not resolve platform override for `build.modules`. THIS IS A BUG!"@,
        r.2@ == "missing or empty field `sources`"@,
{
}

/// The module that is read off a path is what is left of it without its `init` file, its
/// extension and its last slashes, with dots for the slashes.
pub proof fn module_is_what_is_left_of_the_path(
    path: String,
    text: &str,
    ext: Option<String>,
    init: &str,
    dot: &str,
    parts: (String, String, String),
    texts_of: (&str, &str, &str),
    name: String,
    r: Result<LuaModule, ParseLuaModuleError>,
)
    requires
        call_ensures(LuaModule::from_pathbuf, (path,), r),
        text@ == path@,
        call_ensures(path_extension, (text,), ext),
        init@ == "init."@ + (if ext is Some {
            ext->0@
        } else {
            ""@
        }),
        dot@ == "."@ + (if ext is Some {
            ext->0@
        } else {
            ""@
        }),
        call_ensures(trim_end_matches, (text, init), parts.0),
        texts_of.0@ == parts.0@,
        call_ensures(trim_end_matches, (texts_of.0, dot), parts.1),
        texts_of.1@ == parts.1@,
        call_ensures(trim_end_matches, (texts_of.1, "/"), parts.2),
        texts_of.2@ == parts.2@,
        call_ensures(replace_char, (texts_of.2, '/', '.'), name),
    ensures
        r is Ok <==> 0 < name@.len(),
        r is Ok ==> r->Ok_0@ == name@,
{
    reveal_strlit("");
    assert(""@ == Seq::<char>::empty());
}

} // verus!
