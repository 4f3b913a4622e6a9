//! The build specification of a rock, from what `build = { ... }` of a rockspec says.

use crate::build_type::BuildType;
use crate::install_spec::{installs_nothing, InstallSpec};
use crate::lua_value::{LuaTableKey, LuaTableKeyView};
use crate::module_spec::{
    lacks_sources, overridden_module, same_module, LuaModule, ModulePathsMissingSources, ModuleSpec,
    ModuleSpecAmbiguousPlatformOverride, ModuleSpecInternal, ParseLuaModuleError,
};
use crate::slash_path::{
    bare_name_gets_the_extension, contains_path, first_path_stays_first, os_components,
    path_with_extension, paths_unique, same_path, unique_paths, unique_paths_are_the_paths,
    with_extension, PathKey, PathStyle,
};
use crate::table::{
    all_inserted, distinct_keys, entries_map, has_key, keys_are_those_of_the_pairs,
    keys_stay_as_written, last_pair_counts, later_wins, lemma_entries_map, pairs_have_their_keys,
    text_map, Key, Table,
};
use crate::text::{concat, copy, texts};
use vstd::prelude::*;

verus! {

/// What `build = { ... }` says, with what it leaves out.
#[derive(Debug)]
pub struct BuildSpecInternal {
    pub build_type: Option<BuildType>,
    pub builtin_spec: Option<Table<LuaTableKey, ModuleSpecInternal>>,
    pub makefile: Option<String>,
    pub make_build_target: Option<String>,
    pub build_pass: Option<bool>,
    pub make_install_target: Option<String>,
    pub install_pass: Option<bool>,
    pub make_build_variables: Option<Table<String, String>>,
    pub make_install_variables: Option<Table<String, String>>,
    pub variables: Option<Table<String, String>>,
    pub cmake_lists_content: Option<String>,
    pub build_command: Option<String>,
    pub install_command: Option<String>,
    pub install: Option<InstallSpec>,
    pub copy_directories: Option<Vec<String>>,
    pub patches: Option<Table<PathKey, String>>,
    pub target_path: Option<String>,
    pub default_features: Option<bool>,
    pub features: Option<Vec<String>>,
    pub cargo_extra_args: Option<Vec<String>>,
    pub include_paths: Option<Table<LuaTableKey, String>>,
    pub lang: Option<String>,
    pub parser: Option<bool>,
    pub generate: Option<bool>,
    pub location: Option<String>,
    pub queries: Option<Table<PathKey, String>>,
}

/// The override, where there is one.
pub open spec fn overridden<T>(over: Option<T>, base: Option<T>) -> Option<T> {
    if over is Some {
        over
    } else {
        base
    }
}

/// The map of a table, where there is a table.
pub open spec fn map_of<K: Key, V>(table: Option<Table<K, V>>) -> Option<Map<K::V, V>> {
    match table {
        Some(table) => Some(table@),
        None => None,
    }
}

/// The entries of both maps, in which the values of the override count.
pub open spec fn merged<A, B>(over: Option<Map<A, B>>, base: Option<Map<A, B>>) -> Option<
    Map<A, B>,
> {
    match (over, base) {
        (Some(over), Some(base)) => Some(base.union_prefer_right(over)),
        (Some(over), None) => Some(over),
        (None, base) => base,
    }
}

/// The entries of a table, where there is one.
pub open spec fn entries_of<K: Key, V>(table: Option<Table<K, V>>) -> Seq<(K, V)> {
    match table {
        Some(table) => table.entries(),
        None => Seq::empty(),
    }
}

/// The entries of both tables. A key of both is written as in the base.
pub open spec fn merged_entries<K: Key, V>(
    over: Option<Table<K, V>>,
    base: Option<Table<K, V>>,
) -> Seq<(K, V)> {
    match (over, base) {
        (Some(over), Some(base)) => all_inserted(base.entries(), over.entries()),
        (Some(over), None) => over.entries(),
        (None, base) => entries_of(base),
    }
}

/// Two tables of modules cannot be merged: a module of both is of two kinds.
pub open spec fn ambiguous(
    over: Option<Map<LuaTableKeyView, ModuleSpecInternal>>,
    base: Option<Map<LuaTableKeyView, ModuleSpecInternal>>,
) -> bool {
    &&& over matches Some(over)
    &&& base matches Some(base)
    &&& exists|k: LuaTableKeyView|
        #![trigger over.contains_key(k)]
        #![trigger base.contains_key(k)]
        over.contains_key(k) && base.contains_key(k) && overridden_module(base[k], over[k]) is None
}

/// The value of the key `k` after the override, if the key has one: a module of both maps is
/// overridden.
pub open spec fn merged_module(
    over: Map<LuaTableKeyView, ModuleSpecInternal>,
    base: Map<LuaTableKeyView, ModuleSpecInternal>,
    k: LuaTableKeyView,
) -> ModuleSpecInternal {
    if over.contains_key(k) && base.contains_key(k) {
        overridden_module(base[k], over[k])->0
    } else if over.contains_key(k) {
        over[k]
    } else {
        base[k]
    }
}

/// The modules of both maps, each overridden where both have it.
pub open spec fn merged_modules(
    over: Map<LuaTableKeyView, ModuleSpecInternal>,
    base: Map<LuaTableKeyView, ModuleSpecInternal>,
) -> Map<LuaTableKeyView, ModuleSpecInternal> {
    Map::new(
        |k: LuaTableKeyView| over.contains_key(k) || base.contains_key(k),
        |k: LuaTableKeyView| merged_module(over, base, k),
    )
}

/// The modules after the override.
pub open spec fn merged_builtin(
    over: Option<Map<LuaTableKeyView, ModuleSpecInternal>>,
    base: Option<Map<LuaTableKeyView, ModuleSpecInternal>>,
) -> Option<Map<LuaTableKeyView, ModuleSpecInternal>> {
    match (over, base) {
        (Some(over), Some(base)) => Some(merged_modules(over, base)),
        (Some(over), None) => Some(over),
        (None, base) => base,
    }
}

/// What a list of strings says, where there is a list.
pub open spec fn texts_of(list: Option<Vec<String>>) -> Option<Seq<Seq<char>>> {
    match list {
        Some(list) => Some(texts(list@)),
        None => None,
    }
}

/// The paths of the base and then those of the override, each once.
pub open spec fn merged_paths(
    style: PathStyle,
    over: Option<Seq<Seq<char>>>,
    base: Option<Seq<Seq<char>>>,
) -> Option<Seq<Seq<char>>> {
    match (over, base) {
        (Some(over), Some(base)) => Some(unique_paths(style, base + over)),
        (Some(over), None) => Some(over),
        (None, base) => base,
    }
}

/// `r` is the specification `base` with the platform override `over`. The install variables are
/// merged with the build variables of the base.
pub open spec fn is_overridden_spec(
    style: PathStyle,
    base: BuildSpecInternal,
    over: BuildSpecInternal,
    r: BuildSpecInternal,
) -> bool {
    &&& r.build_type == overridden(over.build_type, base.build_type)
    &&& map_of(r.builtin_spec) == merged_builtin(
        map_of(over.builtin_spec),
        map_of(base.builtin_spec),
    )
    &&& r.makefile == overridden(over.makefile, base.makefile)
    &&& r.make_build_target == overridden(over.make_build_target, base.make_build_target)
    &&& r.build_pass == overridden(over.build_pass, base.build_pass)
    &&& r.make_install_target == overridden(over.make_install_target, base.make_install_target)
    &&& r.install_pass == overridden(over.install_pass, base.install_pass)
    &&& map_of(r.make_build_variables) == merged(
        map_of(over.make_build_variables),
        map_of(base.make_build_variables),
    )
    &&& map_of(r.make_install_variables) == merged(
        map_of(over.make_install_variables),
        map_of(base.make_build_variables),
    )
    &&& map_of(r.variables) == merged(map_of(over.variables), map_of(base.variables))
    &&& r.cmake_lists_content == overridden(over.cmake_lists_content, base.cmake_lists_content)
    &&& r.build_command == overridden(over.build_command, base.build_command)
    &&& r.install_command == overridden(over.install_command, base.install_command)
    &&& r.install == overridden(over.install, base.install)
    &&& texts_of(r.copy_directories) == merged_paths(
        style,
        texts_of(over.copy_directories),
        texts_of(base.copy_directories),
    )
    &&& r.patches == overridden(over.patches, base.patches)
    &&& r.target_path == overridden(over.target_path, base.target_path)
    &&& r.default_features == overridden(over.default_features, base.default_features)
    &&& r.features == overridden(over.features, base.features)
    &&& r.cargo_extra_args == overridden(over.cargo_extra_args, base.cargo_extra_args)
    &&& map_of(r.include_paths) == merged(map_of(over.include_paths), map_of(base.include_paths))
    &&& r.lang == overridden(over.lang, base.lang)
    &&& r.parser == overridden(over.parser, base.parser)
    &&& r.generate == overridden(over.generate, base.generate)
    &&& r.location == overridden(over.location, base.location)
    &&& map_of(r.queries) == merged(map_of(over.queries), map_of(base.queries))
    &&& entries_of(r.queries) == merged_entries(over.queries, base.queries)
}

/// The override, where there is one.
pub fn override_opt<T>(over: Option<T>, base: Option<T>) -> (r: Option<T>)
    ensures
        r == overridden(over, base),
{
    match over {
        Some(value) => Some(value),
        None => base,
    }
}

/// The entries of both tables, in which the values of the override count. A key of both is written
/// as in the base.
pub fn merge_map_opts<K: Key, V>(over: Option<Table<K, V>>, base: Option<Table<K, V>>) -> (r:
    Option<Table<K, V>>)
    ensures
        map_of(r) == merged(map_of(over), map_of(base)),
        entries_of(r) == merged_entries(over, base),
{
    match (over, base) {
        (Some(over), Some(base)) => Some(base.merge(over)),
        (None, base) => base,
        (Some(over), None) => Some(over),
    }
}

/// The modules of both tables, each overridden where both have it.
fn merge_modules(
    over: Table<LuaTableKey, ModuleSpecInternal>,
    base: Table<LuaTableKey, ModuleSpecInternal>,
) -> (r: Result<Table<LuaTableKey, ModuleSpecInternal>, ModuleSpecAmbiguousPlatformOverride>)
    ensures
        match r {
            Ok(table) => !ambiguous(Some(over@), Some(base@)) && table@ == merged_modules(
                over@,
                base@,
            ),
            Err(_) => ambiguous(Some(over@), Some(base@)),
        },
{
    let ghost over_map = over@;
    let ghost base_map = base@;
    let entries = over.into_entries();
    let ghost all = entries@;
    let mut acc = base;
    proof {
        lemma_entries_map(all);
        assert(merged_modules(entries_map(all.take(0)), base_map) == base_map);
    }
    for entry in it: entries
        invariant
            it.seq() == all,
            over_map == over@,
            base_map == base@,
            entries_map(all) == over_map,
            distinct_keys(all),
            acc@ == merged_modules(entries_map(all.take(it.index())), base_map),
            forall|i: int|
                0 <= i < it.index() && base_map.contains_key(all[i].0@) ==> overridden_module(
                    base_map[all[i].0@],
                    (#[trigger] all[i]).1,
                ) is Some,
    {
        let ghost i = it.index();
        let ghost done = entries_map(all.take(i));
        let ghost before = acc@;
        let key = entry.0;
        let spec = entry.1;
        proof {
            assert(all[i] == (key, spec));
            assert(all.take(i + 1).drop_last() == all.take(i));
            lemma_entries_map(all.take(i));
            lemma_entries_map(all);
            assert(!done.contains_key(key@)) by {
                if done.contains_key(key@) {
                    let j = choose|j: int|
                        0 <= j < all.take(i).len() && (#[trigger] all.take(i)[j]).0@ == key@;
                    assert(all[j].0@ != all[i].0@);
                }
            }
            assert(over_map.contains_key(key@));
            assert(over_map[all[i].0@] == all[i].1);
        }
        match acc.remove(&key) {
            Some(base_spec) => {
                match base_spec.apply_overrides(spec) {
                    Ok(overridden) => {
                        acc.insert(key, overridden);
                    },
                    Err(err) => {
                        assert(base_map.contains_key(key@) && base_map[key@] == base_spec);
                        return Err(err);
                    },
                }
            },
            None => {
                acc.insert(key, spec);
            },
        }
        assert(acc@ == merged_modules(entries_map(all.take(i + 1)), base_map));
    }
    proof {
        assert(all.take(all.len() as int) == all);
        lemma_entries_map(all);
        assert forall|k: LuaTableKeyView|
            over_map.contains_key(k) && base_map.contains_key(k) implies overridden_module(
            base_map[k],
            over_map[k],
        ) is Some by {
            let j = choose|j: int| 0 <= j < all.len() && (#[trigger] all[j]).0@ == k;
            assert(over_map[all[j].0@] == all[j].1);
        }
    }
    Ok(acc)
}

/// The specification `base` with the platform override `over`, where `style` says when two
/// directories are the same.
pub fn override_build_spec_internal(
    base: BuildSpecInternal,
    over: BuildSpecInternal,
    style: PathStyle,
) -> (r: Result<BuildSpecInternal, ModuleSpecAmbiguousPlatformOverride>)
    ensures
        match r {
            Ok(spec) => !ambiguous(map_of(over.builtin_spec), map_of(base.builtin_spec))
                && is_overridden_spec(style, base, over, spec),
            Err(_) => ambiguous(map_of(over.builtin_spec), map_of(base.builtin_spec)),
        },
{
    let builtin_spec = match (over.builtin_spec, base.builtin_spec) {
        (Some(override_val), Some(base_spec_map)) => {
            match merge_modules(override_val, base_spec_map) {
                Ok(modules) => Some(modules),
                Err(err) => {
                    return Err(err);
                },
            }
        },
        (None, base_val) => base_val,
        (override_val, None) => override_val,
    };
    let base_build_variables = match &base.make_build_variables {
        Some(variables) => Some(variables.copied()),
        None => None,
    };
    let copy_directories = match (over.copy_directories, base.copy_directories) {
        (Some(override_vec), Some(base_vec)) => {
            let mut all = base_vec;
            let mut rest = override_vec;
            let ghost before = texts(all@);
            let ghost added = texts(rest@);
            all.append(&mut rest);
            assert(texts(all@) == before + added);
            Some(paths_unique(style, all))
        },
        (None, base_vec) => base_vec,
        (override_vec, None) => override_vec,
    };
    Ok(
        BuildSpecInternal {
            build_type: override_opt(over.build_type, base.build_type),
            builtin_spec,
            makefile: override_opt(over.makefile, base.makefile),
            make_build_target: override_opt(over.make_build_target, base.make_build_target),
            build_pass: override_opt(over.build_pass, base.build_pass),
            make_install_target: override_opt(over.make_install_target, base.make_install_target),
            install_pass: override_opt(over.install_pass, base.install_pass),
            make_build_variables: merge_map_opts(
                over.make_build_variables,
                base.make_build_variables,
            ),
            make_install_variables: merge_map_opts(
                over.make_install_variables,
                base_build_variables,
            ),
            variables: merge_map_opts(over.variables, base.variables),
            cmake_lists_content: override_opt(over.cmake_lists_content, base.cmake_lists_content),
            build_command: override_opt(over.build_command, base.build_command),
            install_command: override_opt(over.install_command, base.install_command),
            install: override_opt(over.install, base.install),
            copy_directories,
            patches: override_opt(over.patches, base.patches),
            target_path: override_opt(over.target_path, base.target_path),
            default_features: override_opt(over.default_features, base.default_features),
            features: override_opt(over.features, base.features),
            cargo_extra_args: override_opt(over.cargo_extra_args, base.cargo_extra_args),
            include_paths: merge_map_opts(over.include_paths, base.include_paths),
            lang: override_opt(over.lang, base.lang),
            parser: override_opt(over.parser, base.parser),
            generate: override_opt(over.generate, base.generate),
            location: override_opt(over.location, base.location),
            queries: merge_map_opts(over.queries, base.queries),
        },
    )
}

/// The modules of the builtin backend.
#[derive(Debug)]
pub struct BuiltinBuildSpec {
    /// Keys are module names in the format normally used by the `require()` function
    pub modules: Table<LuaModule, ModuleSpec>,
}

/// What the make backend runs.
#[derive(Debug)]
pub struct MakeBuildSpec {
    pub makefile: String,
    pub build_target: Option<String>,
    pub build_pass: bool,
    pub install_target: String,
    pub install_pass: bool,
    pub build_variables: Table<String, String>,
    pub install_variables: Table<String, String>,
    pub variables: Table<String, String>,
}

/// What the CMake backend runs.
#[derive(Debug)]
pub struct CMakeBuildSpec {
    pub cmake_lists_content: Option<String>,
    pub build_pass: bool,
    pub install_pass: bool,
    pub variables: Table<String, String>,
}

/// The commands of the command backend.
#[derive(Debug, PartialEq, Clone)]
pub struct CommandBuildSpec {
    pub build_command: Option<String>,
    pub install_command: Option<String>,
}

/// What the `rust-mlua` backend builds.
#[derive(Debug)]
pub struct RustMluaBuildSpec {
    pub modules: Table<String, String>,
    pub target_path: String,
    pub default_features: bool,
    pub features: Vec<String>,
    pub cargo_extra_args: Vec<String>,
    pub include_paths: Table<PathKey, String>,
}

/// What the `treesitter-parser` backend builds.
#[derive(Debug)]
pub struct TreesitterParserBuildSpec {
    pub lang: String,
    pub parser: bool,
    pub generate: bool,
    pub location: Option<String>,
    pub queries: Table<PathKey, String>,
}

/// Encodes extra information about each backend.
/// When selecting a backend, one may provide extra parameters
/// to `build = { ... }` in order to further customize the behaviour of the build step.
#[derive(Debug)]
pub enum BuildBackendSpec {
    Builtin(BuiltinBuildSpec),
    Make(MakeBuildSpec),
    CMake(CMakeBuildSpec),
    Command(CommandBuildSpec),
    LuaRock(String),
    RustMlua(RustMluaBuildSpec),
    TreesitterParser(TreesitterParserBuildSpec),
    /// Build from the source rockspec, if present.
    /// Otherwise, fall back to the builtin build and copy all directories.
    Source,
}

/// The build specification for a given rock.
#[derive(Debug)]
pub struct BuildSpec {
    /// Determines the build backend to use.
    pub build_backend: Option<BuildBackendSpec>,
    /// A set of instructions on how/where to copy files from the project.
    pub install: InstallSpec,
    /// A list of directories that should be copied as-is into the resulting rock.
    pub copy_directories: Vec<String>,
    /// A list of patches to apply to the project before packaging it.
    pub patches: Table<PathKey, String>,
}

/// What the backends and the platform have for what a rockspec leaves open.
#[derive(Debug)]
pub struct BuildDefaults {
    pub makefile: String,
    pub make_build_pass: bool,
    pub make_install_target: String,
    pub make_install_pass: bool,
    pub cmake_build_pass: bool,
    pub cmake_install_pass: bool,
    /// What the file name of a dynamic library starts with
    pub dll_prefix: String,
    /// The extension of a dynamic library
    pub dll_extension: String,
    /// How the platform reads paths
    pub path_style: PathStyle,
}

/// Why there is no build specification.
#[derive(Debug)]
pub enum BuildSpecInternalError {
    ModulesHaveListElements,
    NoModulesSpecified,
    NoTreesitterParserLanguageSpecified,
    InvalidRustMLuaFormat,
    ModulePathsMissingSources(ModulePathsMissingSources),
    ParseLuaModuleError(ParseLuaModuleError),
}

/// The value, where there is one, and else the default.
pub open spec fn value_or<T>(value: Option<T>, default: T) -> T {
    match value {
        Some(value) => value,
        None => default,
    }
}

/// The map of a table, where there is one, and else the empty map.
pub open spec fn map_or_empty<K: Key, V>(table: Option<Table<K, V>>) -> Map<K::V, V> {
    match table {
        Some(table) => table@,
        None => Map::empty(),
    }
}

/// The elements of a list, where there is one.
pub open spec fn list_or_empty<T>(list: Option<Vec<T>>) -> Seq<T> {
    match list {
        Some(list) => list@,
        None => Seq::empty(),
    }
}

/// The build type, which is builtin where none is given.
pub open spec fn build_type_of(internal: BuildSpecInternal) -> BuildType {
    value_or(internal.build_type, BuildType::Builtin)
}

/// An entry of the modules that the builtin backend does not accept.
pub open spec fn is_faulty(entry: (LuaTableKey, ModuleSpecInternal)) -> bool {
    match entry.0 {
        LuaTableKey::IntKey(_) => true,
        LuaTableKey::StringKey(name) => name@.len() == 0 || lacks_sources(entry.1),
    }
}

/// The error is that of the faulty entry.
pub open spec fn is_fault(
    entry: (LuaTableKey, ModuleSpecInternal),
    err: BuildSpecInternalError,
) -> bool {
    match (entry.0, err) {
        (LuaTableKey::IntKey(_), BuildSpecInternalError::ModulesHaveListElements) => true,
        (
            LuaTableKey::StringKey(name),
            BuildSpecInternalError::ParseLuaModuleError(ParseLuaModuleError::EmptyModule(text)),
        ) => name@.len() == 0 && text@ == name@,
        (LuaTableKey::StringKey(name), BuildSpecInternalError::ModulePathsMissingSources(_)) => 0
            < name@.len() && lacks_sources(entry.1),
        _ => false,
    }
}

/// The entry at `i` is the first faulty one.
pub open spec fn first_faulty(entries: Seq<(LuaTableKey, ModuleSpecInternal)>, i: int) -> bool {
    &&& 0 <= i < entries.len()
    &&& is_faulty(entries[i])
    &&& forall|j: int| 0 <= j < i ==> !is_faulty(#[trigger] entries[j])
}

/// The modules are those of the rockspec, by their names.
pub open spec fn same_modules(
    modules: Map<Seq<char>, ModuleSpec>,
    internal: Map<LuaTableKeyView, ModuleSpecInternal>,
) -> bool {
    &&& forall|name: Seq<char>| #[trigger]
        modules.contains_key(name) <==> internal.contains_key(LuaTableKeyView::Text(name))
    &&& forall|name: Seq<char>| #[trigger]
        modules.contains_key(name) ==> same_module(
            modules[name],
            internal[LuaTableKeyView::Text(name)],
        )
}

/// An entry that the `rust-mlua` backend accepts.
pub open spec fn is_rust_module(entry: (LuaTableKey, ModuleSpecInternal)) -> bool {
    entry.1 is SourcePath
}

/// The dynamic library that a Rust module is built as.
pub open spec fn rust_lib(module: Seq<char>, defaults: BuildDefaults) -> Seq<char> {
    with_extension(defaults.dll_prefix@ + module, defaults.dll_extension@)
}

/// The name of a Rust module and its dynamic library. Without a name of its own the module has
/// the name that the library is made of.
pub open spec fn rust_pair(
    entry: (LuaTableKey, ModuleSpecInternal),
    defaults: BuildDefaults,
) -> (Seq<char>, Seq<char>) {
    let module = entry.1->SourcePath_0@;
    match entry.0 {
        LuaTableKey::IntKey(_) => (module, rust_lib(module, defaults)),
        LuaTableKey::StringKey(name) => (name@, rust_lib(module, defaults)),
    }
}

/// The names of the Rust modules and their dynamic libraries.
pub open spec fn rust_pairs(
    entries: Seq<(LuaTableKey, ModuleSpecInternal)>,
    defaults: BuildDefaults,
) -> Seq<(Seq<char>, Seq<char>)> {
    entries.map_values(|entry: (LuaTableKey, ModuleSpecInternal)| rust_pair(entry, defaults))
}

/// The path to copy from and the one to copy to. Without a key they are the same.
pub open spec fn copy_pair(style: PathStyle, entry: (LuaTableKey, String)) -> (
    Seq<Seq<char>>,
    Seq<char>,
) {
    (os_components(style, copy_source(entry)), entry.1@)
}

/// The path to copy from, as it is written.
pub open spec fn copy_source(entry: (LuaTableKey, String)) -> Seq<char> {
    match entry.0 {
        LuaTableKey::IntKey(_) => entry.1@,
        LuaTableKey::StringKey(src) => src@,
    }
}

/// The first one of the entries that copies from this path writes it as `src`.
pub open spec fn is_first_written(
    style: PathStyle,
    entries: Seq<(LuaTableKey, String)>,
    src: Seq<char>,
) -> bool {
    exists|i: int|
        0 <= i < entries.len() && copy_source(#[trigger] entries[i]) == src && forall|j: int|
            0 <= j < i ==> !same_path(style, copy_source(#[trigger] entries[j]), src)
}

/// The paths to copy from and to.
pub open spec fn copy_pairs(style: PathStyle, entries: Seq<(LuaTableKey, String)>) -> Seq<
    (Seq<Seq<char>>, Seq<char>),
> {
    entries.map_values(|entry: (LuaTableKey, String)| copy_pair(style, entry))
}

/// The backend is the one that the rockspec says.
pub open spec fn is_backend(
    internal: BuildSpecInternal,
    defaults: BuildDefaults,
    backend: Option<BuildBackendSpec>,
) -> bool {
    match build_type_of(internal) {
        BuildType::Builtin => {
            &&& backend matches Some(BuildBackendSpec::Builtin(spec))
            &&& same_modules(spec.modules@, map_or_empty(internal.builtin_spec))
        },
        BuildType::Make => {
            &&& backend matches Some(BuildBackendSpec::Make(spec))
            &&& spec.makefile == value_or(internal.makefile, defaults.makefile)
            &&& spec.build_target == internal.make_build_target
            &&& spec.build_pass == value_or(internal.build_pass, defaults.make_build_pass)
            &&& spec.install_target == value_or(
                internal.make_install_target,
                defaults.make_install_target,
            )
            &&& spec.install_pass == value_or(internal.install_pass, defaults.make_install_pass)
            &&& spec.build_variables@ == map_or_empty(internal.make_build_variables)
            &&& spec.install_variables@ == map_or_empty(internal.make_install_variables)
            &&& spec.variables@ == map_or_empty(internal.variables)
        },
        BuildType::CMake => {
            &&& backend matches Some(BuildBackendSpec::CMake(spec))
            &&& spec.cmake_lists_content == internal.cmake_lists_content
            &&& spec.build_pass == value_or(internal.build_pass, defaults.cmake_build_pass)
            &&& spec.install_pass == value_or(internal.install_pass, defaults.cmake_install_pass)
            &&& spec.variables@ == map_or_empty(internal.variables)
        },
        BuildType::Command => {
            &&& backend matches Some(BuildBackendSpec::Command(spec))
            &&& spec.build_command == internal.build_command
            &&& spec.install_command == internal.install_command
        },
        BuildType::NoBuild => backend is None,
        BuildType::LuaRock(name) => backend == Some(BuildBackendSpec::LuaRock(name)),
        BuildType::RustMlua => {
            &&& backend matches Some(BuildBackendSpec::RustMlua(spec))
            &&& text_map(spec.modules@) == later_wins(
                rust_pairs(entries_of(internal.builtin_spec), defaults),
            )
            &&& spec.target_path@ == (match internal.target_path {
                Some(path) => path@,
                None => "target"@,
            })
            &&& spec.default_features == value_or(internal.default_features, true)
            &&& spec.features@ == list_or_empty(internal.features)
            &&& spec.cargo_extra_args@ == list_or_empty(internal.cargo_extra_args)
            &&& text_map(spec.include_paths@) == later_wins(
                copy_pairs(defaults.path_style, entries_of(internal.include_paths)),
            )
            &&& forall|i: int|
                0 <= i < spec.include_paths.entries().len() ==> is_first_written(
                    defaults.path_style,
                    entries_of(internal.include_paths),
                    (#[trigger] spec.include_paths.entries()[i]).0.text@,
                )
        },
        BuildType::TreesitterParser => {
            &&& backend matches Some(BuildBackendSpec::TreesitterParser(spec))
            &&& Some(spec.lang) == internal.lang
            &&& spec.parser == value_or(internal.parser, false)
            &&& spec.generate == value_or(internal.generate, false)
            &&& spec.location == internal.location
            &&& spec.queries@ == map_or_empty(internal.queries)
            &&& spec.queries.entries() == entries_of(internal.queries)
        },
        BuildType::Source => backend == Some(BuildBackendSpec::Source),
    }
}

/// The build specification is the one that the rockspec says.
pub open spec fn is_build_spec(
    internal: BuildSpecInternal,
    defaults: BuildDefaults,
    spec: BuildSpec,
) -> bool {
    &&& is_backend(internal, defaults, spec.build_backend)
    &&& match internal.install {
        Some(install) => spec.install == install,
        None => installs_nothing(spec.install),
    }
    &&& spec.copy_directories@ == list_or_empty(internal.copy_directories)
    &&& spec.patches@ == map_or_empty(internal.patches)
    &&& spec.patches.entries() == entries_of(internal.patches)
}

/// The rockspec says no build specification.
pub open spec fn is_refused(internal: BuildSpecInternal) -> bool {
    match build_type_of(internal) {
        BuildType::Builtin => exists|i: int|
            0 <= i < entries_of(internal.builtin_spec).len() && is_faulty(
                #[trigger] entries_of(internal.builtin_spec)[i],
            ),
        BuildType::RustMlua => internal.builtin_spec is None || exists|i: int|
            0 <= i < entries_of(internal.builtin_spec).len() && !is_rust_module(
                #[trigger] entries_of(internal.builtin_spec)[i],
            ),
        BuildType::TreesitterParser => internal.lang is None,
        _ => false,
    }
}

/// The error says why the rockspec says no build specification. Of several faulty modules it is
/// the first one.
pub open spec fn is_refusal(internal: BuildSpecInternal, err: BuildSpecInternalError) -> bool {
    match build_type_of(internal) {
        BuildType::Builtin => exists|i: int|
            first_faulty(entries_of(internal.builtin_spec), i) && is_fault(
                #[trigger] entries_of(internal.builtin_spec)[i],
                err,
            ),
        BuildType::RustMlua => if internal.builtin_spec is None {
            err is NoModulesSpecified
        } else {
            err is InvalidRustMLuaFormat
        },
        BuildType::TreesitterParser => err is NoTreesitterParserLanguageSpecified,
        _ => false,
    }
}

/// The value, where there is one, and else the default.
fn unwrap_or<T>(value: Option<T>, default: T) -> (r: T)
    ensures
        r == value_or(value, default),
{
    match value {
        Some(value) => value,
        None => default,
    }
}

/// The table, where there is one, and else the empty table.
fn unwrap_table<K: Key, V>(table: Option<Table<K, V>>) -> (r: Table<K, V>)
    ensures
        r@ == map_or_empty(table),
        r.entries() == entries_of(table),
{
    match table {
        Some(table) => table,
        None => Table::new(),
    }
}

/// The list, where there is one, and else the empty list.
fn unwrap_list<T>(list: Option<Vec<T>>) -> (r: Vec<T>)
    ensures
        r@ == list_or_empty(list),
{
    match list {
        Some(list) => list,
        None => Vec::new(),
    }
}

/// The modules of the builtin backend.
fn builtin_modules(table: Table<LuaTableKey, ModuleSpecInternal>) -> (r: Result<
    Table<LuaModule, ModuleSpec>,
    BuildSpecInternalError,
>)
    ensures
        match r {
            Ok(modules) => same_modules(modules@, table@) && forall|i: int|
                0 <= i < table.entries().len() ==> !is_faulty(#[trigger] table.entries()[i]),
            Err(err) => exists|i: int|
                first_faulty(table.entries(), i) && is_fault(#[trigger] table.entries()[i], err),
        },
{
    let entries = table.into_entries();
    let ghost all = entries@;
    let mut modules: Table<LuaModule, ModuleSpec> = Table::new();
    for entry in it: entries
        invariant
            it.seq() == all,
            all == table.entries(),
            distinct_keys(all),
            forall|i: int| 0 <= i < it.index() ==> !is_faulty(#[trigger] all[i]),
            same_modules(modules@, entries_map(all.take(it.index()))),
    {
        let ghost i = it.index();
        let ghost done = entries_map(all.take(i));
        let ghost before = modules@;
        proof {
            assert(all[i] == entry);
            assert(all.take(i + 1).drop_last() == all.take(i));
        }
        let name = match entry.0 {
            LuaTableKey::IntKey(_) => {
                let err = BuildSpecInternalError::ModulesHaveListElements;
                assert(first_faulty(all, i) && is_fault(all[i], err));
                return Err(err);
            },
            LuaTableKey::StringKey(name) => name,
        };
        let module = match LuaModule::from_str(name.as_str()) {
            Ok(module) => module,
            Err(err) => {
                let err = BuildSpecInternalError::ParseLuaModuleError(err);
                assert(first_faulty(all, i) && is_fault(all[i], err));
                return Err(err);
            },
        };
        match ModuleSpec::from_internal(entry.1) {
            Ok(spec) => {
                modules.insert(module, spec);
                proof {
                    let now = entries_map(all.take(i + 1));
                    assert(now == done.insert(LuaTableKeyView::Text(name@), entry.1));
                    assert forall|k: Seq<char>| #[trigger]
                        modules@.contains_key(k) <==> now.contains_key(LuaTableKeyView::Text(k)) by {
                        assert(before.contains_key(k) <==> done.contains_key(
                            LuaTableKeyView::Text(k),
                        ));
                    }
                    assert forall|k: Seq<char>| #[trigger] modules@.contains_key(k) implies same_module(
                        modules@[k],
                        now[LuaTableKeyView::Text(k)],
                    ) by {
                        if k != name@ {
                            assert(before.contains_key(k));
                            assert(LuaTableKeyView::Text(k) != LuaTableKeyView::Text(name@));
                        }
                    }
                }
            },
            Err(err) => {
                let err = BuildSpecInternalError::ModulePathsMissingSources(err);
                assert(first_faulty(all, i) && is_fault(all[i], err));
                return Err(err);
            },
        }
    }
    assert(all.take(all.len() as int) == all);
    Ok(modules)
}

/// The modules of the `rust-mlua` backend and their dynamic libraries.
fn rust_modules(table: Table<LuaTableKey, ModuleSpecInternal>, defaults: &BuildDefaults) -> (r:
    Result<Table<String, String>, BuildSpecInternalError>)
    ensures
        match r {
            Ok(modules) => text_map(modules@) == later_wins(
                rust_pairs(table.entries(), *defaults),
            ) && forall|i: int|
                0 <= i < table.entries().len() ==> is_rust_module(#[trigger] table.entries()[i]),
            Err(err) => err is InvalidRustMLuaFormat && exists|i: int|
                0 <= i < table.entries().len() && !is_rust_module(#[trigger] table.entries()[i]),
        },
{
    let entries = table.into_entries();
    let ghost all = entries@;
    let ghost pairs = rust_pairs(all, *defaults);
    let mut modules: Table<String, String> = Table::new();
    assert(text_map(modules@) == later_wins(pairs.take(0)));
    for entry in it: entries
        invariant
            it.seq() == all,
            all == table.entries(),
            pairs == rust_pairs(all, *defaults),
            forall|i: int| 0 <= i < it.index() ==> is_rust_module(#[trigger] all[i]),
            text_map(modules@) == later_wins(pairs.take(it.index())),
    {
        let ghost i = it.index();
        let ghost before = modules@;
        proof {
            assert(all[i] == entry);
            assert(pairs.take(i + 1).drop_last() == pairs.take(i));
        }
        match entry.1 {
            ModuleSpecInternal::SourcePath(module) => {
                let lib = path_with_extension(
                    concat(defaults.dll_prefix.as_str(), module.as_str()).as_str(),
                    defaults.dll_extension.as_str(),
                );
                let name = match entry.0 {
                    LuaTableKey::IntKey(_) => module,
                    LuaTableKey::StringKey(name) => name,
                };
                assert(pairs[i] == (name@, lib@));
                modules.insert(name, lib);
                assert(text_map(modules@) == text_map(before).insert(name@, lib@));
            },
            _ => {
                assert(!is_rust_module(all[i]));
                return Err(BuildSpecInternalError::InvalidRustMLuaFormat);
            },
        }
    }
    assert(pairs.take(pairs.len() as int) == pairs);
    Ok(modules)
}

/// More entries do not change which one is the first.
proof fn lemma_first_written_grows(
    style: PathStyle,
    entries: Seq<(LuaTableKey, String)>,
    n: int,
    src: Seq<char>,
)
    requires
        0 <= n < entries.len(),
        is_first_written(style, entries.take(n), src),
    ensures
        is_first_written(style, entries.take(n + 1), src),
{
    let less = entries.take(n);
    let more = entries.take(n + 1);
    let i = choose|i: int|
        0 <= i < less.len() && copy_source(#[trigger] less[i]) == src && forall|j: int|
            0 <= j < i ==> !same_path(style, copy_source(#[trigger] less[j]), src);
    assert(copy_source(more[i]) == src);
    assert forall|j: int| 0 <= j < i implies !same_path(style, copy_source(#[trigger] more[j]), src) by {
        assert(more[j] == less[j]);
    }
}

/// A key of a pair is a key of the map of the pairs.
proof fn lemma_later_wins_has<A, B>(pairs: Seq<(A, B)>, i: int)
    requires
        0 <= i < pairs.len(),
    ensures
        later_wins(pairs).contains_key(pairs[i].0),
    decreases pairs.len(),
{
    if i < pairs.len() - 1 {
        lemma_later_wins_has(pairs.drop_last(), i);
        assert(pairs.drop_last()[i] == pairs[i]);
    }
}

/// The paths to copy from and to. A path to copy from is written as it was first.
fn copied_paths(table: Table<LuaTableKey, String>, style: PathStyle) -> (r: Table<PathKey, String>)
    ensures
        text_map(r@) == later_wins(copy_pairs(style, table.entries())),
        forall|i: int|
            0 <= i < r.entries().len() ==> is_first_written(
                style,
                table.entries(),
                (#[trigger] r.entries()[i]).0.text@,
            ),
{
    let entries = table.into_entries();
    let ghost all = entries@;
    let ghost pairs = copy_pairs(style, all);
    let mut r: Table<PathKey, String> = Table::new();
    assert(text_map(r@) == later_wins(pairs.take(0)));
    for entry in it: entries
        invariant
            it.seq() == all,
            pairs == copy_pairs(style, all),
            text_map(r@) == later_wins(pairs.take(it.index())),
            forall|k: int|
                0 <= k < r.entries().len() ==> is_first_written(
                    style,
                    all.take(it.index()),
                    (#[trigger] r.entries()[k]).0.text@,
                ),
    {
        let ghost i = it.index();
        let ghost before = r@;
        let ghost old_entries = r.entries();
        let dest = entry.1;
        let src = match entry.0 {
            LuaTableKey::IntKey(_) => PathKey { style, text: copy(dest.as_str()) },
            LuaTableKey::StringKey(src) => PathKey { style, text: src },
        };
        proof {
            assert(all[i] == entry);
            assert(pairs.take(i + 1).drop_last() == pairs.take(i));
            assert(pairs[i] == (src@, dest@));
            r.lemma_view();
            lemma_entries_map(old_entries);
        }
        r.insert(src, dest);
        proof {
            assert(text_map(r@) == text_map(before).insert(src@, dest@));
            assert forall|k: int| 0 <= k < r.entries().len() implies is_first_written(
                style,
                all.take(i + 1),
                (#[trigger] r.entries()[k]).0.text@,
            ) by {
                if k < old_entries.len() {
                    assert(r.entries()[k].0 == old_entries[k].0);
                    lemma_first_written_grows(style, all, i, old_entries[k].0.text@);
                } else {
                    let now = all.take(i + 1);
                    assert(!has_key(old_entries, src));
                    assert(!text_map(before).contains_key(src@));
                    assert(copy_source(now[i]) == src.text@);
                    assert forall|j: int| 0 <= j < i implies !same_path(
                        style,
                        copy_source(#[trigger] now[j]),
                        src.text@,
                    ) by {
                        lemma_later_wins_has(pairs.take(i), j);
                        assert(pairs.take(i)[j].0 == os_components(style, copy_source(now[j])));
                    }
                }
            }
        }
    }
    assert(all.take(all.len() as int) == all);
    assert(pairs.take(pairs.len() as int) == pairs);
    r
}

impl Default for BuildBackendSpec {
    /// The builtin backend without modules.
    fn default() -> (r: BuildBackendSpec)
        ensures
            r matches BuildBackendSpec::Builtin(spec) && spec.modules@ == Map::<
                Seq<char>,
                ModuleSpec,
            >::empty(),
    {
        BuildBackendSpec::Builtin(BuiltinBuildSpec { modules: Table::new() })
    }
}

impl BuildBackendSpec {
    /// Whether the backend can use build dependencies.
    pub fn can_use_build_dependencies(&self) -> (r: bool)
        ensures
            r == (self is Make || self is CMake || self is Command || self is LuaRock),
    {
        match self {
            BuildBackendSpec::Make(_)
            | BuildBackendSpec::CMake(_)
            | BuildBackendSpec::Command(_)
            | BuildBackendSpec::LuaRock(_) => true,
            BuildBackendSpec::Builtin(_)
            | BuildBackendSpec::RustMlua(_)
            | BuildBackendSpec::TreesitterParser(_)
            | BuildBackendSpec::Source => false,
        }
    }
}

impl BuildSpecInternalError {
    /// What the error says.
    pub open spec fn message(&self) -> Seq<char> {
        match self {
            BuildSpecInternalError::ModulesHaveListElements => {
                "'builtin' modules should not have list elements"@
            },
            BuildSpecInternalError::NoModulesSpecified => {
                "no 'modules' specified for the 'rust-mlua' build backend"@
            },
            BuildSpecInternalError::NoTreesitterParserLanguageSpecified => {
                "no 'lang' specified for 'treesitter-parser' build backend"@
            },
            BuildSpecInternalError::InvalidRustMLuaFormat => {
                "invalid 'rust-mlua' modules format"@
            },
            BuildSpecInternalError::ModulePathsMissingSources(_) => "missing or empty field `sources`"@,
            BuildSpecInternalError::ParseLuaModuleError(err) => err.message(),
        }
    }

    /// What the error says.
    pub fn to_message(&self) -> (r: String)
        ensures
            r@ == self.message(),
    {
        match self {
            BuildSpecInternalError::ModulesHaveListElements => copy(
                "'builtin' modules should not have list elements",
            ),
            BuildSpecInternalError::NoModulesSpecified => copy(
                "no 'modules' specified for the 'rust-mlua' build backend",
            ),
            BuildSpecInternalError::NoTreesitterParserLanguageSpecified => copy(
                "no 'lang' specified for 'treesitter-parser' build backend",
            ),
            BuildSpecInternalError::InvalidRustMLuaFormat => copy(
                "invalid 'rust-mlua' modules format",
            ),
            BuildSpecInternalError::ModulePathsMissingSources(err) => err.to_message(),
            BuildSpecInternalError::ParseLuaModuleError(err) => err.to_message(),
        }
    }
}

impl Default for BuildSpec {
    /// The builtin build without modules, installs, directories or patches.
    fn default() -> (r: BuildSpec)
        ensures
            r.build_backend matches Some(BuildBackendSpec::Builtin(spec)) && spec.modules@ == Map::<
                Seq<char>,
                ModuleSpec,
            >::empty(),
            installs_nothing(r.install),
            r.copy_directories@ == Seq::<String>::empty(),
            r.patches@ == Map::<Seq<Seq<char>>, String>::empty(),
    {
        BuildSpec {
            build_backend: Some(BuildBackendSpec::default()),
            install: InstallSpec::default(),
            copy_directories: Vec::new(),
            patches: Table::new(),
        }
    }
}

impl BuildSpec {
    /// The build specification that `internal` says, with `defaults` for what it leaves open.
    pub fn from_internal_spec(internal: BuildSpecInternal, defaults: BuildDefaults) -> (r: Result<
        BuildSpec,
        BuildSpecInternalError,
    >)
        ensures
            match r {
                Ok(spec) => !is_refused(internal) && is_build_spec(internal, defaults, spec),
                Err(err) => is_refused(internal) && is_refusal(internal, err),
            },
    {
        let build_backend = match unwrap_or(internal.build_type, BuildType::default()) {
            BuildType::Builtin => {
                match builtin_modules(unwrap_table(internal.builtin_spec)) {
                    Ok(modules) => Some(BuildBackendSpec::Builtin(BuiltinBuildSpec { modules })),
                    Err(err) => {
                        return Err(err);
                    },
                }
            },
            BuildType::Make => Some(
                BuildBackendSpec::Make(
                    MakeBuildSpec {
                        makefile: unwrap_or(internal.makefile, defaults.makefile),
                        build_target: internal.make_build_target,
                        build_pass: unwrap_or(internal.build_pass, defaults.make_build_pass),
                        install_target: unwrap_or(
                            internal.make_install_target,
                            defaults.make_install_target,
                        ),
                        install_pass: unwrap_or(internal.install_pass, defaults.make_install_pass),
                        build_variables: unwrap_table(internal.make_build_variables),
                        install_variables: unwrap_table(internal.make_install_variables),
                        variables: unwrap_table(internal.variables),
                    },
                ),
            ),
            BuildType::CMake => Some(
                BuildBackendSpec::CMake(
                    CMakeBuildSpec {
                        cmake_lists_content: internal.cmake_lists_content,
                        build_pass: unwrap_or(internal.build_pass, defaults.cmake_build_pass),
                        install_pass: unwrap_or(internal.install_pass, defaults.cmake_install_pass),
                        variables: unwrap_table(internal.variables),
                    },
                ),
            ),
            BuildType::Command => Some(
                BuildBackendSpec::Command(
                    CommandBuildSpec {
                        build_command: internal.build_command,
                        install_command: internal.install_command,
                    },
                ),
            ),
            BuildType::NoBuild => None,
            BuildType::LuaRock(name) => Some(BuildBackendSpec::LuaRock(name)),
            BuildType::RustMlua => {
                let table = match internal.builtin_spec {
                    Some(table) => table,
                    None => {
                        return Err(BuildSpecInternalError::NoModulesSpecified);
                    },
                };
                assert(entries_of(internal.builtin_spec) == table.entries());
                let modules = match rust_modules(table, &defaults) {
                    Ok(modules) => modules,
                    Err(err) => {
                        return Err(err);
                    },
                };
                Some(
                    BuildBackendSpec::RustMlua(
                        RustMluaBuildSpec {
                            modules,
                            target_path: match internal.target_path {
                                Some(path) => path,
                                None => copy("target"),
                            },
                            default_features: unwrap_or(internal.default_features, true),
                            features: unwrap_list(internal.features),
                            cargo_extra_args: unwrap_list(internal.cargo_extra_args),
                            include_paths: copied_paths(
                                unwrap_table(internal.include_paths),
                                defaults.path_style,
                            ),
                        },
                    ),
                )
            },
            BuildType::TreesitterParser => {
                let lang = match internal.lang {
                    Some(lang) => lang,
                    None => {
                        return Err(BuildSpecInternalError::NoTreesitterParserLanguageSpecified);
                    },
                };
                Some(
                    BuildBackendSpec::TreesitterParser(
                        TreesitterParserBuildSpec {
                            lang,
                            parser: unwrap_or(internal.parser, false),
                            generate: unwrap_or(internal.generate, false),
                            location: internal.location,
                            queries: unwrap_table(internal.queries),
                        },
                    ),
                )
            },
            BuildType::Source => Some(BuildBackendSpec::Source),
        };
        Ok(
            BuildSpec {
                build_backend,
                install: match internal.install {
                    Some(install) => install,
                    None => InstallSpec::default(),
                },
                copy_directories: unwrap_list(internal.copy_directories),
                patches: unwrap_table(internal.patches),
            },
        )
    }
}

/// The specification says nothing.
pub open spec fn says_nothing(spec: BuildSpecInternal) -> bool {
    &&& spec.build_type is None
    &&& spec.builtin_spec is None
    &&& spec.makefile is None
    &&& spec.make_build_target is None
    &&& spec.build_pass is None
    &&& spec.make_install_target is None
    &&& spec.install_pass is None
    &&& spec.make_build_variables is None
    &&& spec.make_install_variables is None
    &&& spec.variables is None
    &&& spec.cmake_lists_content is None
    &&& spec.build_command is None
    &&& spec.install_command is None
    &&& spec.install is None
    &&& spec.copy_directories is None
    &&& spec.patches is None
    &&& spec.target_path is None
    &&& spec.default_features is None
    &&& spec.features is None
    &&& spec.cargo_extra_args is None
    &&& spec.include_paths is None
    &&& spec.lang is None
    &&& spec.parser is None
    &&& spec.generate is None
    &&& spec.location is None
    &&& spec.queries is None
}

impl Default for BuildSpecInternal {
    /// A specification that says nothing.
    fn default() -> (r: BuildSpecInternal)
        ensures
            says_nothing(r),
    {
        BuildSpecInternal {
            build_type: None,
            builtin_spec: None,
            makefile: None,
            make_build_target: None,
            build_pass: None,
            make_install_target: None,
            install_pass: None,
            make_build_variables: None,
            make_install_variables: None,
            variables: None,
            cmake_lists_content: None,
            build_command: None,
            install_command: None,
            install: None,
            copy_directories: None,
            patches: None,
            target_path: None,
            default_features: None,
            features: None,
            cargo_extra_args: None,
            include_paths: None,
            lang: None,
            parser: None,
            generate: None,
            location: None,
            queries: None,
        }
    }
}

/// The specifications say the same, except for the install variables.
pub open spec fn same_but_install_variables(a: BuildSpecInternal, b: BuildSpecInternal) -> bool {
    &&& a.build_type == b.build_type
    &&& map_of(a.builtin_spec) == map_of(b.builtin_spec)
    &&& a.makefile == b.makefile
    &&& a.make_build_target == b.make_build_target
    &&& a.build_pass == b.build_pass
    &&& a.make_install_target == b.make_install_target
    &&& a.install_pass == b.install_pass
    &&& map_of(a.make_build_variables) == map_of(b.make_build_variables)
    &&& map_of(a.variables) == map_of(b.variables)
    &&& a.cmake_lists_content == b.cmake_lists_content
    &&& a.build_command == b.build_command
    &&& a.install_command == b.install_command
    &&& a.install == b.install
    &&& texts_of(a.copy_directories) == texts_of(b.copy_directories)
    &&& a.patches == b.patches
    &&& a.target_path == b.target_path
    &&& a.default_features == b.default_features
    &&& a.features == b.features
    &&& a.cargo_extra_args == b.cargo_extra_args
    &&& map_of(a.include_paths) == map_of(b.include_paths)
    &&& a.lang == b.lang
    &&& a.parser == b.parser
    &&& a.generate == b.generate
    &&& a.location == b.location
    &&& map_of(a.queries) == map_of(b.queries)
    &&& entries_of(a.queries) == entries_of(b.queries)
}

/// An override that says nothing is never ambiguous and changes only the install variables, which
/// become the build variables of the base.
pub proof fn empty_override_keeps_the_base(
    style: PathStyle,
    base: BuildSpecInternal,
    over: BuildSpecInternal,
    r: BuildSpecInternal,
)
    requires
        says_nothing(over),
        is_overridden_spec(style, base, over, r),
    ensures
        !ambiguous(map_of(over.builtin_spec), map_of(base.builtin_spec)),
        same_but_install_variables(r, base),
        map_of(r.make_install_variables) == map_of(base.make_build_variables),
{
}

/// An override of a base that says nothing is the override.
pub proof fn override_of_nothing_is_the_override(
    style: PathStyle,
    base: BuildSpecInternal,
    over: BuildSpecInternal,
    r: BuildSpecInternal,
)
    requires
        says_nothing(base),
        is_overridden_spec(style, base, over, r),
    ensures
        !ambiguous(map_of(over.builtin_spec), map_of(base.builtin_spec)),
        same_but_install_variables(r, over),
        map_of(r.make_install_variables) == map_of(over.make_install_variables),
{
}

/// After an override no directory is copied twice, and all those of the base and of the override
/// are copied.
pub proof fn overridden_directories_are_unique(
    style: PathStyle,
    base: BuildSpecInternal,
    over: BuildSpecInternal,
    r: BuildSpecInternal,
)
    requires
        is_overridden_spec(style, base, over, r),
        base.copy_directories is Some,
        over.copy_directories is Some,
    ensures
        r.copy_directories is Some,
        ({
            let all = texts(r.copy_directories->0@);
            &&& forall|i: int, j: int|
                0 <= i < j < all.len() ==> !same_path(style, #[trigger] all[i], #[trigger] all[j])
            &&& forall|i: int|
                0 <= i < base.copy_directories->0@.len() ==> contains_path(
                    style,
                    all,
                    (#[trigger] base.copy_directories->0@[i])@,
                )
            &&& forall|i: int|
                0 <= i < over.copy_directories->0@.len() ==> contains_path(
                    style,
                    all,
                    (#[trigger] over.copy_directories->0@[i])@,
                )
        }),
{
    let first = texts(base.copy_directories->0@);
    let second = texts(over.copy_directories->0@);
    let both = first + second;
    unique_paths_are_the_paths(style, both);
    assert forall|i: int| 0 <= i < first.len() implies contains_path(
        style,
        unique_paths(style, both),
        (#[trigger] base.copy_directories->0@[i])@,
    ) by {
        assert(both[i] == first[i]);
    }
    assert forall|i: int| 0 <= i < second.len() implies contains_path(
        style,
        unique_paths(style, both),
        (#[trigger] over.copy_directories->0@[i])@,
    ) by {
        assert(both[first.len() + i] == second[i]);
    }
}

/// The build specification of a rockspec that says nothing is the builtin build without modules,
/// installs, directories and patches.
pub proof fn empty_spec_is_the_builtin_build(
    internal: BuildSpecInternal,
    defaults: BuildDefaults,
    spec: BuildSpec,
)
    requires
        says_nothing(internal),
    ensures
        !is_refused(internal),
        is_build_spec(internal, defaults, spec) ==> {
            &&& spec.build_backend matches Some(BuildBackendSpec::Builtin(builtin))
            &&& builtin.modules@ == Map::<Seq<char>, ModuleSpec>::empty()
            &&& installs_nothing(spec.install)
            &&& spec.copy_directories@ == Seq::<String>::empty()
            &&& spec.patches@ == Map::<Seq<Seq<char>>, String>::empty()
        },
{
    if is_build_spec(internal, defaults, spec) {
        let modules = spec.build_backend->0->Builtin_0.modules@;
        assert forall|name: Seq<char>| !modules.contains_key(name) by {}
        assert(modules == Map::<Seq<char>, ModuleSpec>::empty());
    }
}

/// Every module of the builtin backend that is made of several paths has sources.
pub proof fn built_modules_have_sources(
    internal: BuildSpecInternal,
    defaults: BuildDefaults,
    spec: BuildSpec,
    name: Seq<char>,
)
    requires
        !is_refused(internal),
        is_build_spec(internal, defaults, spec),
        build_type_of(internal) is Builtin,
        spec.build_backend->0->Builtin_0.modules@.contains_key(name),
    ensures
        spec.build_backend->0->Builtin_0.modules@[name] matches ModuleSpec::ModulePaths(paths)
            ==> 0 < paths.sources@.len(),
{
    let entries = entries_of(internal.builtin_spec);
    let map = map_or_empty(internal.builtin_spec);
    let key = LuaTableKeyView::Text(name);
    if let Some(table) = internal.builtin_spec {
        table.lemma_view();
    }
    assert(map.contains_key(key));
    lemma_entries_map_value(entries, key);
}

/// The value of a key is that of an entry with the key.
proof fn lemma_entries_map_value(
    entries: Seq<(LuaTableKey, ModuleSpecInternal)>,
    key: LuaTableKeyView,
)
    requires
        entries_map(entries).contains_key(key),
    ensures
        exists|i: int|
            0 <= i < entries.len() && (#[trigger] entries[i]).0@ == key && entries[i].1
                == entries_map(entries)[key],
    decreases entries.len(),
{
    if 0 < entries.len() {
        let last = entries[entries.len() - 1];
        if last.0@ != key {
            let before = entries.drop_last();
            lemma_entries_map_value(before, key);
            let i = choose|i: int|
                0 <= i < before.len() && (#[trigger] before[i]).0@ == key && before[i].1
                    == entries_map(before)[key];
            assert(entries[i] == before[i]);
        }
    }
}

/// Of two optional values the override's counts where there is one, also where the base has one;
/// the base's counts only where the override has none.
pub proof fn given_value_overrides<T>(over: Option<T>, base: Option<T>, r: Option<T>)
    requires
        call_ensures(override_opt::<T>, (over, base), r),
    ensures
        over is Some ==> r == over,
        over is None ==> r == base,
{
}

/// Every field that is not merged has the override's value where the override has one, also where
/// the base has one. The base counts only for the fields that the override leaves out.
pub proof fn given_fields_override(
    base: BuildSpecInternal,
    over: BuildSpecInternal,
    style: PathStyle,
    r: BuildSpecInternal,
)
    requires
        call_ensures(
            override_build_spec_internal,
            (base, over, style),
            Ok::<BuildSpecInternal, ModuleSpecAmbiguousPlatformOverride>(r),
        ),
    ensures
        over.build_type is Some ==> r.build_type == over.build_type,
        over.build_type is None ==> r.build_type == base.build_type,
        over.makefile is Some ==> r.makefile == over.makefile,
        over.makefile is None ==> r.makefile == base.makefile,
        over.make_build_target is Some ==> r.make_build_target == over.make_build_target,
        over.make_build_target is None ==> r.make_build_target == base.make_build_target,
        over.build_pass is Some ==> r.build_pass == over.build_pass,
        over.build_pass is None ==> r.build_pass == base.build_pass,
        over.make_install_target is Some ==> r.make_install_target == over.make_install_target,
        over.make_install_target is None ==> r.make_install_target == base.make_install_target,
        over.install_pass is Some ==> r.install_pass == over.install_pass,
        over.install_pass is None ==> r.install_pass == base.install_pass,
        over.cmake_lists_content is Some ==> r.cmake_lists_content == over.cmake_lists_content,
        over.cmake_lists_content is None ==> r.cmake_lists_content == base.cmake_lists_content,
        over.build_command is Some ==> r.build_command == over.build_command,
        over.build_command is None ==> r.build_command == base.build_command,
        over.install_command is Some ==> r.install_command == over.install_command,
        over.install_command is None ==> r.install_command == base.install_command,
        over.install is Some ==> r.install == over.install,
        over.install is None ==> r.install == base.install,
        over.patches is Some ==> r.patches == over.patches,
        over.patches is None ==> r.patches == base.patches,
        over.target_path is Some ==> r.target_path == over.target_path,
        over.target_path is None ==> r.target_path == base.target_path,
        over.default_features is Some ==> r.default_features == over.default_features,
        over.default_features is None ==> r.default_features == base.default_features,
        over.features is Some ==> r.features == over.features,
        over.features is None ==> r.features == base.features,
        over.cargo_extra_args is Some ==> r.cargo_extra_args == over.cargo_extra_args,
        over.cargo_extra_args is None ==> r.cargo_extra_args == base.cargo_extra_args,
        over.lang is Some ==> r.lang == over.lang,
        over.lang is None ==> r.lang == base.lang,
        over.parser is Some ==> r.parser == over.parser,
        over.parser is None ==> r.parser == base.parser,
        over.generate is Some ==> r.generate == over.generate,
        over.generate is None ==> r.generate == base.generate,
        over.location is Some ==> r.location == over.location,
        over.location is None ==> r.location == base.location,
{
}

/// A table made of two has the keys of both and no others. Where both have a key, its value is
/// that of the override.
pub open spec fn unites<K: Key, V>(
    over: Option<Table<K, V>>,
    base: Option<Table<K, V>>,
    r: Option<Table<K, V>>,
) -> bool {
    &&& r is Some <==> over is Some || base is Some
    &&& forall|k: K::V|
        over is Some && #[trigger] over->0@.contains_key(k) ==> r->0@.contains_key(k) && r->0@[k]
            == over->0@[k]
    &&& forall|k: K::V|
        base is Some && #[trigger] base->0@.contains_key(k) && !(over is Some
            && over->0@.contains_key(k)) ==> r->0@.contains_key(k) && r->0@[k] == base->0@[k]
    &&& forall|k: K::V|
        r is Some && #[trigger] r->0@.contains_key(k) ==> over is Some && over->0@.contains_key(k)
            || base is Some && base->0@.contains_key(k)
}

/// Merging two optional tables loses no key of either, and where both have a key, the override's
/// value counts. The keys of the base stay as they were written, in front.
pub proof fn merged_tables_unite<K: Key, V>(
    over: Option<Table<K, V>>,
    base: Option<Table<K, V>>,
    r: Option<Table<K, V>>,
)
    requires
        call_ensures(merge_map_opts::<K, V>, (over, base), r),
    ensures
        unites(over, base, r),
        over is None ==> map_of(r) == map_of(base) && entries_of(r) == entries_of(base),
        base is None ==> r is Some == over is Some && (r is Some ==> r->0.entries()
            == over->0.entries()),
        over is Some && base is Some ==> base->0.entries().len() <= r->0.entries().len() && forall|
            i: int,
        |
            0 <= i < base->0.entries().len() ==> (#[trigger] r->0.entries()[i]).0
                == base->0.entries()[i].0,
{
    if over is Some && base is Some {
        keys_stay_as_written(base->0.entries(), over->0.entries());
    }
}

/// The tables of variables, of copied paths and of queries are made of both specifications: no
/// key of either is lost, and where both have one, the override's value counts. The variables of
/// the install pass are made of the override's ones and of the base's variables of the build pass.
pub proof fn tables_are_merged(
    base: BuildSpecInternal,
    over: BuildSpecInternal,
    style: PathStyle,
    r: BuildSpecInternal,
)
    requires
        call_ensures(
            override_build_spec_internal,
            (base, over, style),
            Ok::<BuildSpecInternal, ModuleSpecAmbiguousPlatformOverride>(r),
        ),
    ensures
        unites(over.make_build_variables, base.make_build_variables, r.make_build_variables),
        unites(over.make_install_variables, base.make_build_variables, r.make_install_variables),
        unites(over.variables, base.variables, r.variables),
        unites(over.include_paths, base.include_paths, r.include_paths),
        unites(over.queries, base.queries, r.queries),
{
}

/// One module is a source path, a list of source paths or a C module, and the other is not.
pub open spec fn differ_in_kind(a: ModuleSpecInternal, b: ModuleSpecInternal) -> bool {
    ||| a is SourcePath && !(b is SourcePath)
    ||| a is SourcePaths && !(b is SourcePaths)
    ||| a is ModulePaths && !(b is ModulePaths)
}

/// An override is refused exactly if a module of both specifications is of one kind in the base
/// and of another kind in the override.
pub proof fn only_modules_of_two_kinds_are_refused(
    base: BuildSpecInternal,
    over: BuildSpecInternal,
    style: PathStyle,
    r: Result<BuildSpecInternal, ModuleSpecAmbiguousPlatformOverride>,
)
    requires
        call_ensures(override_build_spec_internal, (base, over, style), r),
    ensures
        r is Err <==> base.builtin_spec is Some && over.builtin_spec is Some && exists|
            k: LuaTableKeyView,
        |
            #[trigger] base.builtin_spec->0@.contains_key(k) && over.builtin_spec->0@.contains_key(
                k,
            ) && differ_in_kind(base.builtin_spec->0@[k], over.builtin_spec->0@[k]),
{
    if base.builtin_spec is Some && over.builtin_spec is Some {
        let a = base.builtin_spec->0@;
        let b = over.builtin_spec->0@;
        assert forall|k: LuaTableKeyView|
            #[trigger] a.contains_key(k) && b.contains_key(k) implies (differ_in_kind(a[k], b[k])
            <==> overridden_module(a[k], b[k]) is None) by {}
        if ambiguous(Some(b), Some(a)) {
            let k = choose|k: LuaTableKeyView|
                #![trigger b.contains_key(k)]
                #![trigger a.contains_key(k)]
                b.contains_key(k) && a.contains_key(k) && overridden_module(a[k], b[k]) is None;
            assert(a.contains_key(k) && b.contains_key(k) && differ_in_kind(a[k], b[k]));
        }
    }
}

/// The modules of an overridden specification are those of both specifications. A module of one
/// of them stays as it is. Of a module of both, a source path or a list of source paths stays as
/// the base has it, and each list of a C module is the base's one, or the override's where the
/// base's is empty.
pub proof fn modules_of_both_are_kept(
    base: BuildSpecInternal,
    over: BuildSpecInternal,
    style: PathStyle,
    r: BuildSpecInternal,
    k: LuaTableKeyView,
)
    requires
        call_ensures(
            override_build_spec_internal,
            (base, over, style),
            Ok::<BuildSpecInternal, ModuleSpecAmbiguousPlatformOverride>(r),
        ),
    ensures
        r.builtin_spec is Some <==> base.builtin_spec is Some || over.builtin_spec is Some,
        ({
            let in_base = base.builtin_spec is Some && base.builtin_spec->0@.contains_key(k);
            let in_over = over.builtin_spec is Some && over.builtin_spec->0@.contains_key(k);
            let a = base.builtin_spec->0@[k];
            let b = over.builtin_spec->0@[k];
            let c = r.builtin_spec->0@[k];
            &&& in_base || in_over <==> r.builtin_spec is Some && r.builtin_spec->0@.contains_key(k)
            &&& in_base && !in_over ==> c == a
            &&& in_over && !in_base ==> c == b
            &&& in_base && in_over && a is SourcePath ==> c == a
            &&& in_base && in_over && a is SourcePaths ==> c == a
            &&& in_base && in_over && a is ModulePaths ==> {
                let own = a->ModulePaths_0;
                let other = b->ModulePaths_0;
                &&& c is ModulePaths
                &&& b is ModulePaths

                &&& 0 < own.sources@.len() ==> c->ModulePaths_0.sources == own.sources
                &&& own.sources@.len() == 0 ==> c->ModulePaths_0.sources == other.sources
                &&& 0 < own.libraries@.len() ==> c->ModulePaths_0.libraries == own.libraries
                &&& own.libraries@.len() == 0 ==> c->ModulePaths_0.libraries == other.libraries
                &&& 0 < own.defines@.len() ==> c->ModulePaths_0.defines == own.defines
                &&& own.defines@.len() == 0 ==> c->ModulePaths_0.defines == other.defines
                &&& 0 < own.incdirs@.len() ==> c->ModulePaths_0.incdirs == own.incdirs
                &&& own.incdirs@.len() == 0 ==> c->ModulePaths_0.incdirs == other.incdirs
                &&& 0 < own.libdirs@.len() ==> c->ModulePaths_0.libdirs == own.libdirs
                &&& own.libdirs@.len() == 0 ==> c->ModulePaths_0.libdirs == other.libdirs
            }
        }),
{
}

/// The paths are those of two lists, and none is there twice: none of them is lost, none is
/// added, and the first path of the first list is the first one.
pub open spec fn are_those_of_both(
    style: PathStyle,
    first: Seq<Seq<char>>,
    second: Seq<Seq<char>>,
    all: Seq<Seq<char>>,
) -> bool {
    &&& forall|i: int|
        0 <= i < all.len() ==> first.contains(#[trigger] all[i]) || second.contains(all[i])
    &&& forall|i: int|
        0 <= i < first.len() ==> exists|j: int|
            0 <= j < all.len() && same_path(style, #[trigger] all[j], #[trigger] first[i])
    &&& forall|i: int|
        0 <= i < second.len() ==> exists|j: int|
            0 <= j < all.len() && same_path(style, #[trigger] all[j], #[trigger] second[i])
    &&& forall|i: int, j: int|
        0 <= i < j < all.len() ==> !same_path(style, #[trigger] all[i], #[trigger] all[j])
    &&& 0 < first.len() ==> 0 < all.len() && all[0] == first[0]
}

/// The directories to copy are those of both specifications, the base's ones in front. None of
/// them is lost, none is added, and a directory that was named twice is named once. Where one
/// specification names none, the directories are those of the other.
pub proof fn copied_directories_are_those_of_both(
    base: BuildSpecInternal,
    over: BuildSpecInternal,
    style: PathStyle,
    r: BuildSpecInternal,
)
    requires
        call_ensures(
            override_build_spec_internal,
            (base, over, style),
            Ok::<BuildSpecInternal, ModuleSpecAmbiguousPlatformOverride>(r),
        ),
    ensures
        r.copy_directories is Some <==> base.copy_directories is Some || over.copy_directories
            is Some,
        base.copy_directories is Some && over.copy_directories is None ==> texts(
            r.copy_directories->0@,
        ) == texts(base.copy_directories->0@),
        over.copy_directories is Some && base.copy_directories is None ==> texts(
            r.copy_directories->0@,
        ) == texts(over.copy_directories->0@),
        base.copy_directories is Some && over.copy_directories is Some ==> ({
            let all = texts(r.copy_directories->0@);
            let first = texts(base.copy_directories->0@);
            let second = texts(over.copy_directories->0@);
            are_those_of_both(style, first, second, all)
        }),
{
    if base.copy_directories is Some && over.copy_directories is Some {
        let first = texts(base.copy_directories->0@);
        let second = texts(over.copy_directories->0@);
        let both = first + second;
        let all = texts(r.copy_directories->0@);
        assert(all == unique_paths(style, both));
        unique_paths_are_the_paths(style, both);
        assert forall|i: int| 0 <= i < all.len() implies first.contains(#[trigger] all[i])
            || second.contains(all[i]) by {
            assert(both.contains(all[i]));
            let j = choose|j: int| 0 <= j < both.len() && both[j] == all[i];
            if j < first.len() {
                assert(first[j] == all[i]);
            } else {
                assert(second[j - first.len()] == all[i]);
            }
        }
        assert forall|i: int| 0 <= i < first.len() implies exists|j: int|
            0 <= j < all.len() && same_path(style, #[trigger] all[j], #[trigger] first[i]) by {
            assert(contains_path(style, all, both[i]));
        }
        assert forall|i: int| 0 <= i < second.len() implies exists|j: int|
            0 <= j < all.len() && same_path(style, #[trigger] all[j], #[trigger] second[i]) by {
            assert(contains_path(style, all, both[first.len() + i]));
        }
        if 0 < first.len() {
            first_path_stays_first(style, both);
        }
    }
}

/// The make backend has every field of the build table that belongs to it; what the table leaves
/// out is the default, or empty.
pub proof fn make_fields_are_kept(
    internal: BuildSpecInternal,
    defaults: BuildDefaults,
    r: Result<BuildSpec, BuildSpecInternalError>,
)
    requires
        call_ensures(BuildSpec::from_internal_spec, (internal, defaults), r),
        internal.build_type == Some(BuildType::Make),
    ensures
        r is Ok,
        r->Ok_0.build_backend is Some,
        r->Ok_0.build_backend->0 is Make,
        ({
            let spec = r->Ok_0.build_backend->0->Make_0;
            &&& internal.makefile is Some ==> spec.makefile == internal.makefile->0
            &&& internal.makefile is None ==> spec.makefile == defaults.makefile
            &&& spec.build_target == internal.make_build_target
            &&& internal.build_pass is Some ==> spec.build_pass == internal.build_pass->0
            &&& internal.build_pass is None ==> spec.build_pass == defaults.make_build_pass
            &&& internal.make_install_target is Some ==> spec.install_target
                == internal.make_install_target->0
            &&& internal.make_install_target is None ==> spec.install_target
                == defaults.make_install_target
            &&& internal.install_pass is Some ==> spec.install_pass == internal.install_pass->0
            &&& internal.install_pass is None ==> spec.install_pass == defaults.make_install_pass
            &&& internal.make_build_variables is Some ==> spec.build_variables@
                == internal.make_build_variables->0@
            &&& internal.make_build_variables is None ==> spec.build_variables@
                == Map::<Seq<char>, String>::empty()
            &&& internal.make_install_variables is Some ==> spec.install_variables@
                == internal.make_install_variables->0@
            &&& internal.make_install_variables is None ==> spec.install_variables@
                == Map::<Seq<char>, String>::empty()
            &&& internal.variables is Some ==> spec.variables@ == internal.variables->0@
            &&& internal.variables is None ==> spec.variables@ == Map::<Seq<char>, String>::empty()
        }),
{
}

/// The CMake backend has every field of the build table that belongs to it; what the table leaves
/// out is the default, or empty.
pub proof fn cmake_fields_are_kept(
    internal: BuildSpecInternal,
    defaults: BuildDefaults,
    r: Result<BuildSpec, BuildSpecInternalError>,
)
    requires
        call_ensures(BuildSpec::from_internal_spec, (internal, defaults), r),
        internal.build_type == Some(BuildType::CMake),
    ensures
        r is Ok,
        r->Ok_0.build_backend is Some,
        r->Ok_0.build_backend->0 is CMake,
        ({
            let spec = r->Ok_0.build_backend->0->CMake_0;
            &&& spec.cmake_lists_content == internal.cmake_lists_content
            &&& internal.build_pass is Some ==> spec.build_pass == internal.build_pass->0
            &&& internal.build_pass is None ==> spec.build_pass == defaults.cmake_build_pass
            &&& internal.install_pass is Some ==> spec.install_pass == internal.install_pass->0
            &&& internal.install_pass is None ==> spec.install_pass == defaults.cmake_install_pass
            &&& internal.variables is Some ==> spec.variables@ == internal.variables->0@
            &&& internal.variables is None ==> spec.variables@ == Map::<Seq<char>, String>::empty()
        }),
{
}

/// The command backend has both commands of the build table, each as it was written.
pub proof fn commands_are_kept(
    internal: BuildSpecInternal,
    defaults: BuildDefaults,
    r: Result<BuildSpec, BuildSpecInternalError>,
)
    requires
        call_ensures(BuildSpec::from_internal_spec, (internal, defaults), r),
        internal.build_type == Some(BuildType::Command),
    ensures
        r is Ok,
        r->Ok_0.build_backend is Some,
        r->Ok_0.build_backend->0 is Command,
        r->Ok_0.build_backend->0->Command_0.build_command == internal.build_command,
        r->Ok_0.build_backend->0->Command_0.install_command == internal.install_command,
{
}

/// Build tables without a build, with the name of a rock that builds, or that are built from
/// their sources have just that for a backend.
pub proof fn plain_backends_are_kept(
    internal: BuildSpecInternal,
    defaults: BuildDefaults,
    r: Result<BuildSpec, BuildSpecInternalError>,
)
    requires
        call_ensures(BuildSpec::from_internal_spec, (internal, defaults), r),
    ensures
        internal.build_type == Some(BuildType::NoBuild) ==> r is Ok && r->Ok_0.build_backend is None,
        internal.build_type == Some(BuildType::Source) ==> r is Ok && r->Ok_0.build_backend
            == Some(BuildBackendSpec::Source),
        internal.build_type matches Some(BuildType::LuaRock(name)) ==> r is Ok
            && r->Ok_0.build_backend == Some(BuildBackendSpec::LuaRock(name)),
{
}

/// The treesitter backend has every field of the build table that belongs to it, and the table is
/// refused exactly if it names no language.
pub proof fn treesitter_fields_are_kept(
    internal: BuildSpecInternal,
    defaults: BuildDefaults,
    r: Result<BuildSpec, BuildSpecInternalError>,
)
    requires
        call_ensures(BuildSpec::from_internal_spec, (internal, defaults), r),
        internal.build_type == Some(BuildType::TreesitterParser),
    ensures
        internal.lang is None ==> r is Err && r->Err_0 is NoTreesitterParserLanguageSpecified,
        internal.lang is Some ==> {
            &&& r is Ok
            &&& r->Ok_0.build_backend is Some
            &&& r->Ok_0.build_backend->0 is TreesitterParser
            &&& ({
                let spec = r->Ok_0.build_backend->0->TreesitterParser_0;
                &&& spec.lang == internal.lang->0
                &&& spec.parser <==> internal.parser == Some(true)
                &&& spec.generate <==> internal.generate == Some(true)
                &&& spec.location == internal.location
                &&& internal.queries is Some ==> spec.queries@ == internal.queries->0@
                    && spec.queries.entries() == internal.queries->0.entries()
                &&& internal.queries is None ==> spec.queries@ == Map::<
                    Seq<Seq<char>>,
                    String,
                >::empty() && spec.queries.entries().len() == 0
            })
        },
{
}

/// What a build table says of the installed files, of the directories to copy and of the patches
/// is what the specification says of them, whatever the backend; what it leaves out is empty.
pub proof fn common_fields_are_kept(
    internal: BuildSpecInternal,
    defaults: BuildDefaults,
    spec: BuildSpec,
)
    requires
        call_ensures(
            BuildSpec::from_internal_spec,
            (internal, defaults),
            Ok::<BuildSpec, BuildSpecInternalError>(spec),
        ),
    ensures
        internal.install is Some ==> spec.install == internal.install->0,
        internal.install is None ==> {
            &&& spec.install.lua@ == Map::<Seq<char>, String>::empty()
            &&& spec.install.lib@ == Map::<Seq<char>, String>::empty()
            &&& spec.install.conf@ == Map::<Seq<char>, String>::empty()
            &&& spec.install.bin@ == Map::<Seq<char>, String>::empty()
        },
        internal.copy_directories is Some ==> spec.copy_directories@
            == internal.copy_directories->0@,
        internal.copy_directories is None ==> spec.copy_directories@.len() == 0,
        internal.patches is Some ==> spec.patches@ == internal.patches->0@
            && spec.patches.entries() == internal.patches->0.entries(),
        internal.patches is None ==> spec.patches@ == Map::<Seq<Seq<char>>, String>::empty()
            && spec.patches.entries().len() == 0,
{
}

/// No field of a build table that belongs to the chosen backend is lost: two build tables with
/// one backend have the same commands, the same content for CMake, the same make target, the same
/// location of a parser and the same name of a rock that builds.
pub proof fn backend_tells_the_fields(
    a: BuildSpecInternal,
    b: BuildSpecInternal,
    defaults: BuildDefaults,
    first: BuildSpec,
    second: BuildSpec,
)
    requires
        call_ensures(
            BuildSpec::from_internal_spec,
            (a, defaults),
            Ok::<BuildSpec, BuildSpecInternalError>(first),
        ),
        call_ensures(
            BuildSpec::from_internal_spec,
            (b, defaults),
            Ok::<BuildSpec, BuildSpecInternalError>(second),
        ),
        first.build_backend == second.build_backend,
        a.build_type is Some,
        b.build_type is Some,
    ensures
        a.build_type matches Some(BuildType::LuaRock(name)) ==> b.build_type == a.build_type,
        a.build_type == Some(BuildType::Command) ==> b.build_type == a.build_type
            && a.build_command == b.build_command && a.install_command == b.install_command,
        a.build_type == Some(BuildType::CMake) ==> b.build_type == a.build_type
            && a.cmake_lists_content == b.cmake_lists_content,
        a.build_type == Some(BuildType::Make) ==> b.build_type == a.build_type
            && a.make_build_target == b.make_build_target,
        a.build_type == Some(BuildType::TreesitterParser) ==> b.build_type == a.build_type && a.lang
            == b.lang && a.location == b.location,
        a.build_type == Some(BuildType::NoBuild) ==> b.build_type == a.build_type,
        a.build_type == Some(BuildType::Source) ==> b.build_type == a.build_type,
        a.build_type == Some(BuildType::Builtin) ==> b.build_type == a.build_type,
        a.build_type == Some(BuildType::RustMlua) ==> b.build_type == a.build_type
            && (a.target_path is Some && b.target_path is Some ==> a.target_path->0@
            == b.target_path->0@) && (a.features is Some && b.features is Some ==> a.features->0@
            == b.features->0@) && (a.cargo_extra_args is Some && b.cargo_extra_args is Some
            ==> a.cargo_extra_args->0@ == b.cargo_extra_args->0@),
{
}

/// The builtin backend has the modules of the build table under their names, and no others. Each
/// keeps its kind and all its lists. A table that names no build type is built so, too.
pub proof fn builtin_modules_are_kept(
    internal: BuildSpecInternal,
    defaults: BuildDefaults,
    spec: BuildSpec,
    name: Seq<char>,
)
    requires
        call_ensures(
            BuildSpec::from_internal_spec,
            (internal, defaults),
            Ok::<BuildSpec, BuildSpecInternalError>(spec),
        ),
        internal.build_type is None || internal.build_type == Some(BuildType::Builtin),
    ensures
        spec.build_backend is Some,
        spec.build_backend->0 is Builtin,
        ({
            let modules = spec.build_backend->0->Builtin_0.modules@;
            let key = LuaTableKeyView::Text(name);
            let module = modules[name];
            let given = internal.builtin_spec->0@[key];
            &&& internal.builtin_spec is None ==> modules == Map::<Seq<char>, ModuleSpec>::empty()
            &&& internal.builtin_spec is Some ==> (modules.contains_key(name)
                <==> internal.builtin_spec->0@.contains_key(key))
            &&& modules.contains_key(name) && given is SourcePath ==> module
                == ModuleSpec::SourcePath(given->SourcePath_0)
            &&& modules.contains_key(name) && given is SourcePaths ==> module
                == ModuleSpec::SourcePaths(given->SourcePaths_0)
            &&& modules.contains_key(name) && given is ModulePaths ==> {
                &&& module is ModulePaths
                &&& module->ModulePaths_0.sources == given->ModulePaths_0.sources
                &&& module->ModulePaths_0.libraries == given->ModulePaths_0.libraries
                &&& module->ModulePaths_0.defines == given->ModulePaths_0.defines
                &&& module->ModulePaths_0.incdirs == given->ModulePaths_0.incdirs
                &&& module->ModulePaths_0.libdirs == given->ModulePaths_0.libdirs
                &&& 0 < module->ModulePaths_0.sources@.len()
            }
        }),
{
    let modules = spec.build_backend->0->Builtin_0.modules@;
    if internal.builtin_spec is None {
        assert(modules == Map::<Seq<char>, ModuleSpec>::empty());
    } else {
        let table = internal.builtin_spec->0;
        if modules.contains_key(name) && table@[LuaTableKeyView::Text(name)] is ModulePaths {
            let entries = table.entries();
            let key = LuaTableKeyView::Text(name);
            assert(entries == entries_of(internal.builtin_spec));
            table.lemma_view();
            lemma_entries_map_value(entries, key);
            let i = choose|i: int|
                0 <= i < entries.len() && (#[trigger] entries[i]).0@ == key && entries[i].1
                    == entries_map(entries)[key];
            assert(!is_faulty(entries[i]));
        }
    }
}

/// The entry has no name, has an empty name, or is a C module without sources.
pub open spec fn cannot_be_built(entry: (LuaTableKey, ModuleSpecInternal)) -> bool {
    ||| entry.0 is IntKey
    ||| entry.0->StringKey_0@.len() == 0
    ||| entry.1 is ModulePaths && entry.1->ModulePaths_0.sources@.len() == 0
}

/// A builtin build table is refused exactly if one of its entries cannot be built.
pub proof fn only_faulty_modules_are_refused(
    internal: BuildSpecInternal,
    defaults: BuildDefaults,
    r: Result<BuildSpec, BuildSpecInternalError>,
)
    requires
        call_ensures(BuildSpec::from_internal_spec, (internal, defaults), r),
        internal.build_type is None || internal.build_type == Some(BuildType::Builtin),
    ensures
        r is Err <==> internal.builtin_spec is Some && exists|i: int|
            0 <= i < internal.builtin_spec->0.entries().len() && cannot_be_built(
                #[trigger] internal.builtin_spec->0.entries()[i],
            ),
{
    let entries = entries_of(internal.builtin_spec);
    assert forall|i: int| 0 <= i < entries.len() implies (cannot_be_built(#[trigger] entries[i])
        <==> is_faulty(entries[i])) by {}
}

/// The rust backend has the fields of the build table that belong to it; what the table leaves
/// out is the target directory `target`, the default features, or empty. The table is refused
/// exactly if it has no modules, or one that is not a source path.
pub proof fn rust_fields_are_kept(
    internal: BuildSpecInternal,
    defaults: BuildDefaults,
    r: Result<BuildSpec, BuildSpecInternalError>,
)
    requires
        call_ensures(BuildSpec::from_internal_spec, (internal, defaults), r),
        internal.build_type == Some(BuildType::RustMlua),
    ensures
        internal.builtin_spec is None ==> r is Err && r->Err_0 is NoModulesSpecified,
        internal.builtin_spec is Some && r is Err ==> r->Err_0 is InvalidRustMLuaFormat,
        internal.builtin_spec is Some ==> (r is Err <==> exists|i: int|
            0 <= i < internal.builtin_spec->0.entries().len() && !(
            #[trigger] internal.builtin_spec->0.entries()[i].1 is SourcePath)),
        r is Ok ==> {
            &&& r->Ok_0.build_backend is Some
            &&& r->Ok_0.build_backend->0 is RustMlua
            &&& ({
                let spec = r->Ok_0.build_backend->0->RustMlua_0;
                &&& internal.target_path is Some ==> spec.target_path@ == internal.target_path->0@
                &&& internal.target_path is None ==> spec.target_path@ == "target"@
                &&& spec.default_features <==> internal.default_features != Some(false)
                &&& internal.features is Some ==> spec.features@ == internal.features->0@
                &&& internal.features is None ==> spec.features@.len() == 0
                &&& internal.cargo_extra_args is Some ==> spec.cargo_extra_args@
                    == internal.cargo_extra_args->0@
                &&& internal.cargo_extra_args is None ==> spec.cargo_extra_args@.len() == 0
                &&& internal.include_paths is None ==> spec.include_paths.entries().len() == 0
            })
        },
{
    if internal.builtin_spec is Some {
        let entries = internal.builtin_spec->0.entries();
        assert(entries == entries_of(internal.builtin_spec));
        if exists|i: int| 0 <= i < entries.len() && !(#[trigger] entries[i].1 is SourcePath) {
            let i = choose|i: int| 0 <= i < entries.len() && !(#[trigger] entries[i].1
                is SourcePath);
            assert(!is_rust_module(entries[i]));
        }
        if is_refused(internal) {
            let i = choose|i: int| 0 <= i < entries.len() && !is_rust_module(#[trigger] entries[i]);
            assert(!(entries[i].1 is SourcePath));
        }
    }
    if r is Ok && internal.include_paths is None {
        let spec = r->Ok_0.build_backend->0->RustMlua_0;
        if 0 < spec.include_paths.entries().len() {
            let text = spec.include_paths.entries()[0].0.text@;
            assert(is_first_written(
                defaults.path_style,
                entries_of(internal.include_paths),
                text,
            ));
        }
    }
}

/// The name under which a module of a rust build is installed: its key, or for a listed module
/// the module itself.
pub open spec fn rust_module_name(entry: (LuaTableKey, ModuleSpecInternal)) -> Seq<char> {
    match entry.0 {
        LuaTableKey::StringKey(name) => name@,
        LuaTableKey::IntKey(_) => entry.1->SourcePath_0@,
    }
}

/// Every module of a rust build is in the backend under its name, and nothing else is. The
/// library of a module whose name has no dot and no directory is that name behind the prefix of
/// libraries and with their extension. Of modules with one name, the last one counts.
pub proof fn rust_modules_are_kept(
    internal: BuildSpecInternal,
    defaults: BuildDefaults,
    spec: BuildSpec,
    i: int,
)
    requires
        call_ensures(
            BuildSpec::from_internal_spec,
            (internal, defaults),
            Ok::<BuildSpec, BuildSpecInternalError>(spec),
        ),
        internal.build_type == Some(BuildType::RustMlua),
        0 <= i < internal.builtin_spec->0.entries().len(),
    ensures
        ({
            let entries = internal.builtin_spec->0.entries();
            let modules = spec.build_backend->0->RustMlua_0.modules@;
            let name = rust_module_name(entries[i]);
            let file = defaults.dll_prefix@ + entries[i].1->SourcePath_0@;
            &&& modules.contains_key(name)
            &&& forall|other: Seq<char>| #[trigger]
                modules.contains_key(other) ==> exists|j: int|
                    0 <= j < entries.len() && rust_module_name(#[trigger] entries[j]) == other
            &&& (forall|j: int|
                i < j < entries.len() ==> rust_module_name(#[trigger] entries[j]) != name) && 0
                < file.len() && !file.contains('.') && !file.contains('/') && 0
                < defaults.dll_extension@.len() ==> modules[name]@ == file + seq!['.']
                + defaults.dll_extension@
        }),
{
    let entries = internal.builtin_spec->0.entries();
    assert(entries == entries_of(internal.builtin_spec));
    let modules = spec.build_backend->0->RustMlua_0.modules@;
    let pairs = rust_pairs(entries, defaults);
    let name = rust_module_name(entries[i]);
    assert forall|j: int| 0 <= j < entries.len() implies (#[trigger] pairs[j]).0
        == rust_module_name(entries[j]) by {}
    pairs_have_their_keys(pairs, i);
    assert(text_map(modules).contains_key(pairs[i].0));
    assert forall|other: Seq<char>| #[trigger] modules.contains_key(other) implies exists|j: int|
        0 <= j < entries.len() && rust_module_name(#[trigger] entries[j]) == other by {
        assert(text_map(modules).contains_key(other));
        keys_are_those_of_the_pairs(pairs, other);
        let j = choose|j: int| 0 <= j < pairs.len() && (#[trigger] pairs[j]).0 == other;
        assert(rust_module_name(entries[j]) == other);
    }
    let file = defaults.dll_prefix@ + entries[i].1->SourcePath_0@;
    if (forall|j: int| i < j < entries.len() ==> rust_module_name(#[trigger] entries[j]) != name)
        && 0 < file.len() && !file.contains('.') && !file.contains('/') {
        assert forall|j: int| i < j < pairs.len() implies (#[trigger] pairs[j]).0 != pairs[i].0 by {
            assert(rust_module_name(entries[j]) != name);
        }
        last_pair_counts(pairs, i);
        bare_name_gets_the_extension(file, defaults.dll_extension@);
        assert(text_map(modules)[name] == modules[name]@);
    }
}

/// The path that an entry of the copied paths of a rust build copies from.
pub open spec fn copied_from(entry: (LuaTableKey, String)) -> Seq<char> {
    match entry.0 {
        LuaTableKey::StringKey(src) => src@,
        LuaTableKey::IntKey(_) => entry.1@,
    }
}

/// Every copied path of a rust build is in the backend: it is copied to where the last entry for
/// it says, and a listed path to a path of its own name.
pub proof fn rust_paths_are_kept(
    internal: BuildSpecInternal,
    defaults: BuildDefaults,
    spec: BuildSpec,
    i: int,
    key: PathKey,
)
    requires
        call_ensures(
            BuildSpec::from_internal_spec,
            (internal, defaults),
            Ok::<BuildSpec, BuildSpecInternalError>(spec),
        ),
        internal.build_type == Some(BuildType::RustMlua),
        0 <= i < internal.include_paths->0.entries().len(),
        internal.include_paths is Some,
        key.style == defaults.path_style,
        key.text@ == copied_from(internal.include_paths->0.entries()[i]),
    ensures
        ({
            let entries = internal.include_paths->0.entries();
            let paths = spec.build_backend->0->RustMlua_0.include_paths@;
            &&& paths.contains_key(key@)
            &&& (forall|j: int|
                i < j < entries.len() ==> !same_path(
                    defaults.path_style,
                    copied_from(#[trigger] entries[j]),
                    key.text@,
                )) ==> paths[key@]@ == entries[i].1@
        }),
{
    let entries = internal.include_paths->0.entries();
    assert(entries == entries_of(internal.include_paths));
    let paths = spec.build_backend->0->RustMlua_0.include_paths@;
    let pairs = copy_pairs(defaults.path_style, entries);
    assert forall|j: int| 0 <= j < entries.len() implies (#[trigger] pairs[j]) == (
        os_components(defaults.path_style, copied_from(entries[j])),
        entries[j].1@,
    ) by {}
    pairs_have_their_keys(pairs, i);
    assert(pairs[i].0 == key@);
    assert(text_map(paths).contains_key(key@));
    if forall|j: int|
        i < j < entries.len() ==> !same_path(
            defaults.path_style,
            copied_from(#[trigger] entries[j]),
            key.text@,
        ) {
        assert forall|j: int| i < j < pairs.len() implies (#[trigger] pairs[j]).0 != pairs[i].0 by {
            assert(!same_path(defaults.path_style, copied_from(entries[j]), key.text@));
        }
        last_pair_counts(pairs, i);
        assert(text_map(paths)[key@] == paths[key@]@);
    }
}

/// Build dependencies can be used by the make, CMake and command backends and by rocks that
/// build, and by no other.
pub proof fn build_dependencies_are_for_commands(backend: &BuildBackendSpec, r: bool)
    requires
        call_ensures(BuildBackendSpec::can_use_build_dependencies, (backend,), r),
    ensures
        backend is Make || backend is CMake || backend is Command || backend is LuaRock ==> r,
        backend is Builtin || backend is RustMlua || backend is TreesitterParser || backend
            is Source ==> !r,
{
}

/// A build that says nothing is the builtin build without modules, without anything to install or
/// to copy, and without patches.
pub proof fn default_build_is_empty(
    backend: BuildBackendSpec,
    spec: BuildSpec,
    internal: BuildSpecInternal,
    name: Seq<char>,
)
    requires
        call_ensures(<BuildBackendSpec as Default>::default, (), backend),
        call_ensures(<BuildSpec as Default>::default, (), spec),
        call_ensures(<BuildSpecInternal as Default>::default, (), internal),
    ensures
        backend is Builtin,
        !backend->Builtin_0.modules@.contains_key(name),
        spec.build_backend is Some,
        spec.build_backend->0 is Builtin,
        !spec.build_backend->0->Builtin_0.modules@.contains_key(name),
        !spec.install.lua@.contains_key(name),
        !spec.install.lib@.contains_key(name),
        !spec.install.conf@.contains_key(name),
        !spec.install.bin@.contains_key(name),
        spec.copy_directories@.len() == 0,
        spec.patches@ == Map::<Seq<Seq<char>>, String>::empty(),
        internal.build_type is None,
        internal.builtin_spec is None,
        internal.makefile is None,
        internal.make_build_target is None,
        internal.build_pass is None,
        internal.make_install_target is None,
        internal.install_pass is None,
        internal.make_build_variables is None,
        internal.make_install_variables is None,
        internal.variables is None,
        internal.cmake_lists_content is None,
        internal.build_command is None,
        internal.install_command is None,
        internal.install is None,
        internal.copy_directories is None,
        internal.patches is None,
        internal.target_path is None,
        internal.default_features is None,
        internal.features is None,
        internal.cargo_extra_args is None,
        internal.include_paths is None,
        internal.lang is None,
        internal.parser is None,
        internal.generate is None,
        internal.location is None,
        internal.queries is None,
{
}

/// An error of a build table says what is wrong with it.
pub proof fn build_errors_say_what_is_wrong(
    err: &BuildSpecInternalError,
    r: String,
    inner: &ParseLuaModuleError,
    of_inner: String,
)
    requires
        call_ensures(BuildSpecInternalError::to_message, (err,), r),
        err is ParseLuaModuleError ==> *inner == err->ParseLuaModuleError_0,
        call_ensures(ParseLuaModuleError::to_message, (inner,), of_inner),
    ensures
        err is ModulesHaveListElements ==> r@ == "'builtin' modules should not have list elements"@,
        err is NoModulesSpecified ==> r@
            == "no 'modules' specified for the 'rust-mlua' build backend"@,
        err is NoTreesitterParserLanguageSpecified ==> r@
            == "no 'lang' specified for 'treesitter-parser' build backend"@,
        err is InvalidRustMLuaFormat ==> r@ == "invalid 'rust-mlua' modules format"@,
        err is ModulePathsMissingSources ==> r@ == "missing or empty field `sources`"@,
        err is ParseLuaModuleError ==> r@ == of_inner@,
{
}

/// The library of a module of a rust build is its name behind the prefix of libraries, with their
/// extension, whatever the name.
pub proof fn rust_libraries_have_the_extension(
    internal: BuildSpecInternal,
    defaults: BuildDefaults,
    spec: BuildSpec,
    i: int,
    file: &str,
    ext: &str,
    lib: String,
)
    requires
        call_ensures(
            BuildSpec::from_internal_spec,
            (internal, defaults),
            Ok::<BuildSpec, BuildSpecInternalError>(spec),
        ),
        internal.build_type == Some(BuildType::RustMlua),
        0 <= i < internal.builtin_spec->0.entries().len(),
        forall|j: int|
            i < j < internal.builtin_spec->0.entries().len() ==> rust_module_name(
                #[trigger] internal.builtin_spec->0.entries()[j],
            ) != rust_module_name(internal.builtin_spec->0.entries()[i]),
        file@ == defaults.dll_prefix@ + internal.builtin_spec->0.entries()[i].1->SourcePath_0@,
        ext@ == defaults.dll_extension@,
        call_ensures(path_with_extension, (file, ext), lib),
    ensures
        ({
            let modules = spec.build_backend->0->RustMlua_0.modules@;
            let name = rust_module_name(internal.builtin_spec->0.entries()[i]);
            modules.contains_key(name) && modules[name]@ == lib@
        }),
{
    let entries = internal.builtin_spec->0.entries();
    assert(entries == entries_of(internal.builtin_spec));
    let modules = spec.build_backend->0->RustMlua_0.modules@;
    let pairs = rust_pairs(entries, defaults);
    let name = rust_module_name(entries[i]);
    assert forall|j: int| i < j < pairs.len() implies (#[trigger] pairs[j]).0 != pairs[i].0 by {
        assert(rust_module_name(entries[j]) != name);
    }
    last_pair_counts(pairs, i);
    assert(text_map(modules).contains_key(name));
    assert(text_map(modules)[name] == modules[name]@);
}

/// The first entry that cannot be built decides the error: one without a name, one with an empty
/// name, and a C module without sources are told apart.
pub proof fn first_faulty_module_is_reported(
    internal: BuildSpecInternal,
    defaults: BuildDefaults,
    r: Result<BuildSpec, BuildSpecInternalError>,
    i: int,
)
    requires
        call_ensures(BuildSpec::from_internal_spec, (internal, defaults), r),
        internal.build_type is None || internal.build_type == Some(BuildType::Builtin),
        internal.builtin_spec is Some,
        0 <= i < internal.builtin_spec->0.entries().len(),
        cannot_be_built(internal.builtin_spec->0.entries()[i]),
        forall|j: int|
            0 <= j < i ==> !cannot_be_built(#[trigger] internal.builtin_spec->0.entries()[j]),
    ensures
        r is Err,
        ({
            let entry = internal.builtin_spec->0.entries()[i];
            &&& entry.0 is IntKey ==> r->Err_0 is ModulesHaveListElements
            &&& entry.0 is StringKey && entry.0->StringKey_0@.len() == 0 ==> r->Err_0
                is ParseLuaModuleError && r->Err_0->ParseLuaModuleError_0 is EmptyModule
            &&& entry.0 is StringKey && 0 < entry.0->StringKey_0@.len() ==> r->Err_0
                is ModulePathsMissingSources
        }),
{
    let entries = internal.builtin_spec->0.entries();
    assert(entries == entries_of(internal.builtin_spec));
    assert(is_faulty(entries[i]));
    assert forall|j: int| 0 <= j < i implies !is_faulty(#[trigger] entries[j]) by {
        assert(!cannot_be_built(entries[j]));
    }
    let k = choose|k: int| first_faulty(entries, k) && is_fault(#[trigger] entries[k], r->Err_0);
    assert(first_faulty(entries, k) && is_fault(entries[k], r->Err_0));
    if k < i {
        assert(!is_faulty(entries[k]));
    }
    if i < k {
        assert(!is_faulty(entries[i]));
    }
}

/// The paths that a rust build copies are written as in their first entry, and none is added.
pub proof fn copied_paths_are_written_as_first(
    internal: BuildSpecInternal,
    defaults: BuildDefaults,
    spec: BuildSpec,
    k: int,
)
    requires
        call_ensures(
            BuildSpec::from_internal_spec,
            (internal, defaults),
            Ok::<BuildSpec, BuildSpecInternalError>(spec),
        ),
        internal.build_type == Some(BuildType::RustMlua),
        internal.include_paths is Some,
        0 <= k < spec.build_backend->0->RustMlua_0.include_paths.entries().len(),
    ensures
        ({
            let text = spec.build_backend->0->RustMlua_0.include_paths.entries()[k].0.text@;
            exists|i: int|
                0 <= i < internal.include_paths->0.entries().len() && copied_from(
                    #[trigger] internal.include_paths->0.entries()[i],
                ) == text && forall|j: int|
                    0 <= j < i ==> !same_path(
                        defaults.path_style,
                        copied_from(#[trigger] internal.include_paths->0.entries()[j]),
                        text,
                    )
        }),
{
    let entries = internal.include_paths->0.entries();
    assert(entries == entries_of(internal.include_paths));
    let text = spec.build_backend->0->RustMlua_0.include_paths.entries()[k].0.text@;
    let style = defaults.path_style;
    assert(is_first_written(style, entries, text));
    let i = choose|i: int|
        0 <= i < entries.len() && copy_source(#[trigger] entries[i]) == text && forall|j: int|
            0 <= j < i ==> !same_path(style, copy_source(#[trigger] entries[j]), text);
    assert(copied_from(entries[i]) == text);
    assert forall|j: int| 0 <= j < i implies !same_path(
        style,
        copied_from(#[trigger] entries[j]),
        text,
    ) by {
        assert(!same_path(style, copy_source(entries[j]), text));
    }
}

} // verus!
