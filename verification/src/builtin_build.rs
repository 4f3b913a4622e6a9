//! The builtin build: which modules there are, and what is done with each of them.

use crate::build_spec::{
    builtin_modules_are_kept, BuildBackendSpec, BuildDefaults, BuildSpec, BuildSpecInternal,
    BuildSpecInternalError, BuiltinBuildSpec,
};
use crate::build_type::BuildType;
use crate::lua_value::LuaTableKeyView;
use crate::module_spec::{
    extension_or_empty, is_plain_module, lemma_plain_path, module_is_read_from_its_init_path,
    module_is_read_from_its_path, module_name, path_of_module, LuaModule, ModulePaths, ModuleSpec,
    ParseLuaModuleError,
};
use crate::slash_path::{
    collected, components, contains_path, counted, diff_paths, extension,
    extension_is_what_was_appended, file_name, is_below, is_portable, is_relative_path, is_rooted,
    is_slash_text, is_tidy, joined, joined_in, lemma_no_extension, parent,
    parent_of_a_bare_name_is_empty, path_collect, path_components, path_extension, path_file_name,
    path_is_below, path_join_in, path_parent, path_with_extension, paths_contain,
    portable_paths_have_no_style, relative_path_is_the_path_below, same_path,
    tidy_paths_are_collected, tidy_paths_have_their_names, with_extension, PathStyle,
};
use crate::table::{
    entries_map, keys_are_those_of_the_pairs, last_pair_counts, later_wins, lemma_entries_map,
    pairs_have_their_keys, Table,
};
use crate::text::{
    concat, copy, lemma_join_split, lemma_pieces_hold_no_other, lemma_pieces_hold_no_separator,
    lemma_split_concat, lemma_split_len, lemma_split_one, lemma_split_suffix, opt_text, opt_texts,
    replaced, same_text, split, texts, trim_end,
};
use vstd::prelude::*;

verus! {

/// Why the builtin build failed.
#[derive(Debug)]
pub enum BuiltinBuildError {
    CompileCFiles(String),
    CompileCModules(String),
    InstallBinary(String, String),
    Io(String),
    Tree(String),
    ParseLuaModule(ParseLuaModuleError),
}

impl BuiltinBuildError {
    /// What the error says.
    pub open spec fn message(&self) -> Seq<char> {
        match self {
            BuiltinBuildError::CompileCFiles(text) => text@,
            BuiltinBuildError::CompileCModules(text) => text@,
            BuiltinBuildError::InstallBinary(name, text) => "failed to install binary "@ + name@
                + ": "@ + text@,
            BuiltinBuildError::Io(text) => text@,
            BuiltinBuildError::Tree(text) => text@,
            BuiltinBuildError::ParseLuaModule(err) => err.message(),
        }
    }

    /// What the error says.
    pub fn to_message(&self) -> (r: String)
        ensures
            r@ == self.message(),
    {
        match self {
            BuiltinBuildError::CompileCFiles(text) => copy(text.as_str()),
            BuiltinBuildError::CompileCModules(text) => copy(text.as_str()),
            BuiltinBuildError::InstallBinary(name, text) => concat(
                concat(concat("failed to install binary ", name.as_str()).as_str(), ": ").as_str(),
                text.as_str(),
            ),
            BuiltinBuildError::Io(text) => copy(text.as_str()),
            BuiltinBuildError::Tree(text) => copy(text.as_str()),
            BuiltinBuildError::ParseLuaModule(err) => err.to_message(),
        }
    }
}

/// A file or a directory that was found below the build directory.
#[derive(Debug)]
pub struct WalkedFile {
    pub path: String,
    pub file_name: String,
}

/// What is done with a module.
#[derive(Debug)]
pub enum ModuleAction {
    /// Compile the C files to the library of the module.
    CompileFiles(Vec<String>),
    /// Copy the file to the path of the module.
    CopyLua(String),
    /// Compile the C module.
    CompileModule(ModulePaths),
}

/// A module, what is done with it, and what is said meanwhile.
#[derive(Debug)]
pub struct ModuleStep {
    pub module: LuaModule,
    pub message: String,
    pub action: ModuleAction,
}

/// A script and the name that it is installed under.
#[derive(Debug)]
pub struct BinScript {
    pub path: String,
    pub name: String,
}

/// The source files of a module.
pub open spec fn sources_of(spec: ModuleSpec) -> Seq<Seq<char>> {
    match spec {
        ModuleSpec::SourcePath(path) => seq![path@],
        ModuleSpec::SourcePaths(paths) => texts(paths@),
        ModuleSpec::ModulePaths(paths) => texts(paths.sources@),
    }
}

/// The paths below the build directory.
pub open spec fn all_joined(style: PathStyle, build_dir: Seq<char>, paths: Seq<Seq<char>>) -> Seq<
    Seq<char>,
> {
    paths.map_values(|path: Seq<char>| joined_in(style, build_dir, path))
}

/// The source files of all modules, below the build directory.
pub open spec fn all_sources(
    style: PathStyle,
    build_dir: Seq<char>,
    entries: Seq<(LuaModule, ModuleSpec)>,
) -> Seq<Seq<char>>
    decreases entries.len(),
{
    if entries.len() == 0 {
        Seq::empty()
    } else {
        all_sources(style, build_dir, entries.drop_last()) + all_joined(
            style,
            build_dir,
            sources_of(entries.last().1),
        )
    }
}

/// Appends the paths, below the build directory.
fn append_joined(all: &mut Vec<String>, build_dir: &str, paths: &Vec<String>, style: PathStyle)
    ensures
        texts(final(all)@) == texts(old(all)@) + all_joined(style, build_dir@, texts(paths@)),
{
    let ghost before = texts(all@);
    let ghost parts = texts(paths@);
    let mut i: usize = 0;
    assert(all_joined(style, build_dir@, parts.take(0)) == Seq::<Seq<char>>::empty());
    while i < paths.len()
        invariant
            i <= paths@.len(),
            parts == texts(paths@),
            texts(all@) == before + all_joined(style, build_dir@, parts.take(i as int)),
        decreases paths@.len() - i,
    {
        let ghost now = all@;
        let path = path_join_in(style, build_dir, paths[i].as_str());
        all.push(path);
        proof {
            assert(texts(all@) == texts(now).push(path@));
            assert(parts.take(i + 1) == parts.take(i as int).push(parts[i as int]));
            assert(all_joined(style, build_dir@, parts.take(i + 1)) == all_joined(
                style,
                build_dir@,
                parts.take(i as int),
            ).push(path@));
        }
        i = i + 1;
    }
    assert(parts.take(parts.len() as int) == parts);
}

/// The source files of all modules, below the build directory.
pub fn source_paths(
    build_dir: &str,
    modules: &Table<LuaModule, ModuleSpec>,
    style: PathStyle,
) -> (r: Vec<String>)
    ensures
        texts(r@) == all_sources(style, build_dir@, modules.entries()),
{
    let mut r: Vec<String> = Vec::new();
    let ghost entries = modules.entries();
    let mut i: usize = 0;
    assert(texts(r@) == all_sources(style, build_dir@, entries.take(0)));
    while i < modules.len()
        invariant
            i <= entries.len(),
            entries == modules.entries(),
            texts(r@) == all_sources(style, build_dir@, entries.take(i as int)),
        decreases entries.len() - i,
    {
        let entry = modules.entry(i);
        let ghost before = r@;
        assert(entries.take(i + 1).drop_last() == entries.take(i as int));
        match &entry.1 {
            ModuleSpec::SourcePath(path) => {
                r.push(path_join_in(style, build_dir, path.as_str()));
                proof {
                    assert(texts(r@) == texts(before).push(joined_in(style, build_dir@, path@)));
                    assert(all_joined(style, build_dir@, seq![path@]) == seq![joined_in(style, build_dir@, path@)]);
                }
            },
            ModuleSpec::SourcePaths(paths) => append_joined(&mut r, build_dir, paths, style),
            ModuleSpec::ModulePaths(paths) => append_joined(&mut r, build_dir, &paths.sources, style),
        }
        i = i + 1;
    }
    assert(entries.take(entries.len() as int) == entries);
    r
}

/// The directories below the build directory that are searched for modules.
pub open spec fn module_dirs_of(style: PathStyle, build_dir: Seq<char>) -> Seq<Seq<char>> {
    seq![
        joined_in(style, build_dir, "src"@),
        joined_in(style, build_dir, "lua"@),
        joined_in(style, build_dir, "lib"@),
    ]
}

/// The directories below the build directory that are searched for modules.
pub fn module_dirs(build_dir: &str, style: PathStyle) -> (r: Vec<String>)
    ensures
        texts(r@) == module_dirs_of(style, build_dir@),
{
    let mut r: Vec<String> = Vec::new();
    r.push(path_join_in(style, build_dir, "src"));
    r.push(path_join_in(style, build_dir, "lua"));
    r.push(path_join_in(style, build_dir, "lib"));
    assert(texts(r@) == module_dirs_of(style, build_dir@));
    r
}

/// The path is in one of the directories or below.
pub open spec fn is_in(style: PathStyle, dirs: Seq<Seq<char>>, path: Seq<char>) -> bool {
    exists|i: int| 0 <= i < dirs.len() && is_below(style, #[trigger] dirs[i], path)
}

/// Whether the path is in one of the directories or below.
fn dirs_hold(style: PathStyle, dirs: &Vec<String>, path: &str) -> (r: bool)
    ensures
        r == is_in(style, texts(dirs@), path@),
{
    let ghost all = texts(dirs@);
    let mut i: usize = 0;
    while i < dirs.len()
        invariant
            i <= dirs@.len(),
            all == texts(dirs@),
            forall|k: int| 0 <= k < i ==> !is_below(style, #[trigger] all[k], path@),
        decreases dirs@.len() - i,
    {
        assert(all[i as int] == dirs@[i as int]@);
        if path_is_below(style, dirs[i].as_str(), path) {
            return true;
        }
        i = i + 1;
    }
    false
}

/// Where modules are looked for: in the directories, except for the excluded files.
pub struct SearchView {
    pub style: PathStyle,
    pub dirs: Seq<Seq<char>>,
    pub exclude: Seq<Seq<char>>,
}

/// Modules are looked for in the directories below the build directory.
pub open spec fn search_of(
    style: PathStyle,
    build_dir: Seq<char>,
    exclude: Seq<Seq<char>>,
) -> SearchView {
    SearchView { style, dirs: module_dirs_of(style, build_dir), exclude }
}

/// The file is a Lua file in one of the directories that is none of the excluded ones.
pub open spec fn is_detected(file: WalkedFile, search: SearchView) -> bool {
    &&& extension(file.file_name@) == Some("lua"@)
    &&& is_in(search.style, search.dirs, file.path@)
    &&& !contains_path(search.style, search.exclude, file.path@)
}

/// The relative path without its first component.
pub open spec fn below_first(diff: Seq<char>) -> Seq<char> {
    let all = components(diff);
    collected(
        if all.len() == 0 {
            all
        } else {
            all.skip(1)
        },
    )
}

/// The relative path leads to a file directly in the directory of its first component.
pub open spec fn is_top_level(diff: Seq<char>) -> bool {
    match parent(below_first(diff)) {
        Some(dir) => dir.len() == 0,
        None => true,
    }
}

/// The path that the name of the module is taken from.
pub open spec fn named_path(diff: Seq<char>) -> Seq<char> {
    if is_top_level(diff) {
        with_extension(below_first(diff), Seq::empty())
    } else {
        below_first(diff)
    }
}

/// The name of the module in a Lua file. The `init.lua` of a directory keeps `init` in its name.
pub open spec fn detected_name(diff: Seq<char>, file: Seq<char>) -> Seq<char> {
    if !is_top_level(diff) && file == "init.lua"@ {
        module_name(named_path(diff)) + "."@ + "init"@
    } else {
        module_name(named_path(diff))
    }
}

/// The module in the Lua file with the name `file` that the relative path `diff` leads to.
pub fn detect_module(diff: &str, file: &str) -> (r: Result<LuaModule, ParseLuaModuleError>)
    ensures
        match r {
            Ok(module) => 0 < module_name(named_path(diff@)).len() && module@ == detected_name(
                diff@,
                file@,
            ),
            Err(ParseLuaModuleError::EmptyModule(text)) => module_name(named_path(diff@)).len() == 0
                && is_slash_text(named_path(diff@), text@),
            Err(ParseLuaModuleError::FromString(_)) => false,
        },
{
    let all = path_components(diff);
    let from: usize = if all.len() == 0 { 0 } else { 1 };
    let path = path_collect(&all, from);
    assert(all@.len() == 0 ==> texts(all@).skip(0) == texts(all@));
    let top_level = match path_parent(path.as_str()) {
        Some(dir) => dir.as_str().is_empty(),
        None => true,
    };
    if top_level {
        let empty = String::new();
        assert(empty@ == Seq::<char>::empty());
        LuaModule::from_pathbuf(path_with_extension(path.as_str(), empty.as_str()))
    } else {
        match LuaModule::from_pathbuf(path) {
            Ok(module) => {
                if same_text(file, "init.lua") {
                    match LuaModule::from_str("init") {
                        Ok(init) => Ok(module.join(&init)),
                        Err(err) => {
                            proof {
                                reveal_strlit("init");
                            }
                            Err(err)
                        },
                    }
                } else {
                    Ok(module)
                }
            },
            Err(err) => Err(err),
        }
    }
}

/// The pairs of the modules that the first `n` files hold and the relative paths to the files.
/// `diffs` has the relative path to each file. A file without one is left out.
pub open spec fn detected(
    files: Seq<WalkedFile>,
    diffs: Seq<Option<Seq<char>>>,
    search: SearchView,
    n: int,
) -> Seq<(Seq<char>, Seq<char>)>
    decreases n,
{
    if n <= 0 {
        Seq::empty()
    } else {
        let before = detected(files, diffs, search, n - 1);
        match diffs[n - 1] {
            Some(diff) => if is_detected(files[n - 1], search) {
                before.push((detected_name(diff, files[n - 1].file_name@), diff))
            } else {
                before
            },
            None => before,
        }
    }
}

/// The file is a Lua file without a module name.
pub open spec fn is_nameless(
    file: WalkedFile,
    diff: Option<Seq<char>>,
    search: SearchView,
) -> bool {
    &&& is_detected(file, search)
    &&& diff matches Some(diff)
    &&& module_name(named_path(diff)).len() == 0
}

/// Each module is one source file, and its path is that of the map.
pub open spec fn are_sources(
    modules: Map<Seq<char>, ModuleSpec>,
    paths: Map<Seq<char>, Seq<char>>,
) -> bool {
    &&& modules.dom() == paths.dom()
    &&& forall|name: Seq<char>| #[trigger]
        modules.contains_key(name) ==> (modules[name] matches ModuleSpec::SourcePath(path) && path@
            == paths[name])
}

/// What the files hold: the modules by their names, or the error of the first Lua file without a
/// module name.
pub open spec fn are_detected(
    files: Seq<WalkedFile>,
    diffs: Seq<Option<Seq<char>>>,
    search: SearchView,
    r: Result<Table<LuaModule, ModuleSpec>, ParseLuaModuleError>,
) -> bool {
    match r {
        Ok(modules) => {
            &&& are_sources(
                modules@,
                later_wins(detected(files, diffs, search, files.len() as int)),
            )
            &&& forall|i: int|
                0 <= i < files.len() ==> !is_nameless(#[trigger] files[i], diffs[i], search)
        },
        Err(err) => exists|i: int|
            {
                &&& 0 <= i < files.len()
                &&& is_nameless(#[trigger] files[i], diffs[i], search)
                &&& forall|j: int|
                    0 <= j < i ==> !is_nameless(#[trigger] files[j], diffs[j], search)
                &&& err matches ParseLuaModuleError::EmptyModule(text)
                &&& is_slash_text(named_path(diffs[i]->0), text@)
            },
    }
}

/// Whether the file is a Lua file.
fn is_lua_file(file: &str) -> (r: bool)
    ensures
        r == (extension(file@) == Some("lua"@)),
{
    match path_extension(file) {
        Some(ext) => same_text(ext.as_str(), "lua"),
        None => false,
    }
}

/// The modules that the files in the directories hold, where `diffs` has the relative path to each
/// file.
pub fn detect_modules(
    files: &Vec<WalkedFile>,
    diffs: Vec<Option<String>>,
    dirs: &Vec<String>,
    exclude: &Vec<String>,
    style: PathStyle,
) -> (r: Result<Table<LuaModule, ModuleSpec>, ParseLuaModuleError>)
    requires
        files@.len() == diffs@.len(),
    ensures
        are_detected(
            files@,
            opt_texts(diffs@),
            (SearchView { style, dirs: texts(dirs@), exclude: texts(exclude@) }),
            r,
        ),
{
    let ghost ways = opt_texts(diffs@);
    let ghost search = SearchView { style, dirs: texts(dirs@), exclude: texts(exclude@) };
    let mut r: Table<LuaModule, ModuleSpec> = Table::new();
    assert(are_sources(r@, later_wins(detected(files@, ways, search, 0))));
    let len: usize = files.len();
    let mut i: usize = 0;
    for diff in it: diffs
        invariant
            len == files@.len(),
            opt_texts(it.seq()) == ways,
            ways == opt_texts(diffs@),
            search == (SearchView { style, dirs: texts(dirs@), exclude: texts(exclude@) }),
            files@.len() == ways.len(),
            i == it.index(),
            are_sources(r@, later_wins(detected(files@, ways, search, i as int))),
            forall|k: int|
                0 <= k < i ==> !is_nameless(#[trigger] files@[k], ways[k], search),
    {
        let file = &files[i];
        let ghost before = r@;
        let ghost pairs = detected(files@, ways, search, i as int);
        let ghost known = later_wins(pairs);
        assert(ways[i as int] == opt_text(diff));
        if is_lua_file(file.file_name.as_str()) && dirs_hold(style, dirs, file.path.as_str())
            && !paths_contain(style, exclude, file.path.as_str()) {
            if let Some(diff) = diff {
                match detect_module(diff.as_str(), file.file_name.as_str()) {
                    Ok(module) => {
                        let ghost name = module@;
                        proof {
                            let now = detected(files@, ways, search, i + 1);
                            assert(now == pairs.push((name, diff@)));
                            assert(now.drop_last() == pairs);
                            assert(later_wins(now) == known.insert(name, diff@));
                        }
                        r.insert(module, ModuleSpec::SourcePath(diff));
                        proof {
                            let now = known.insert(name, diff@);
                            assert(r@.dom() == now.dom());
                            assert forall|k: Seq<char>| #[trigger] r@.contains_key(k) implies (r@[k]
                                matches ModuleSpec::SourcePath(path) && path@ == now[k]) by {
                                if k != name {
                                    assert(before.contains_key(k));
                                }
                            }
                        }
                    },
                    Err(err) => {
                        assert(is_nameless(files@[i as int], ways[i as int], search));
                        return Err(err);
                    },
                }
            }
        }
        i = i + 1;
    }
    Ok(r)
}

/// The relative paths from the build directory to the files.
pub open spec fn are_relative(
    style: PathStyle,
    build_dir: Seq<char>,
    files: Seq<WalkedFile>,
    diffs: Seq<Option<Seq<char>>>,
) -> bool {
    &&& diffs.len() == files.len()
    &&& forall|i: int|
        0 <= i < files.len() ==> is_relative_path(
            joined_in(style, build_dir, (#[trigger] files[i]).path@),
            build_dir,
            diffs[i],
        )
}

/// The modules in the Lua files of the directories `src`, `lua` and `lib` below the build directory,
/// except for those in the excluded files. `files` are the files that were found in
/// [`module_dirs`]; one that is elsewhere holds no module.
pub fn autodetect_modules(
    build_dir: &str,
    files: &Vec<WalkedFile>,
    exclude: &Vec<String>,
    style: PathStyle,
) -> (r: Result<Table<LuaModule, ModuleSpec>, ParseLuaModuleError>)
    ensures
        exists|diffs: Seq<Option<Seq<char>>>| #[trigger]
            are_relative(style, build_dir@, files@, diffs) && are_detected(
                files@,
                diffs,
                search_of(style, build_dir@, texts(exclude@)),
                r,
            ),
{
    let mut diffs: Vec<Option<String>> = Vec::new();
    let mut i: usize = 0;
    while i < files.len()
        invariant
            i <= files@.len(),
            diffs@.len() == i,
            forall|k: int|
                0 <= k < i ==> is_relative_path(
                    joined_in(style, build_dir@, (#[trigger] files@[k]).path@),
                    build_dir@,
                    opt_text(diffs@[k]),
                ),
        decreases files@.len() - i,
    {
        let path = path_join_in(style, build_dir, files[i].path.as_str());
        diffs.push(diff_paths(path.as_str(), build_dir));
        i = i + 1;
    }
    let ghost ways = opt_texts(diffs@);
    let dirs = module_dirs(build_dir, style);
    let r = detect_modules(files, diffs, &dirs, exclude, style);
    assert(are_relative(style, build_dir@, files@, ways));
    r
}

/// Every module that is detected is in a Lua file in one of the directories that are searched, and
/// in none of the excluded ones.
pub proof fn detected_modules_are_in_lua_files(
    files: Seq<WalkedFile>,
    diffs: Seq<Option<Seq<char>>>,
    search: SearchView,
    n: int,
)
    requires
        n <= files.len() == diffs.len(),
    ensures
        forall|k: int|
            0 <= k < detected(files, diffs, search, n).len() ==> exists|i: int|
                {
                    &&& 0 <= i < n
                    &&& is_detected(#[trigger] files[i], search)
                    &&& diffs[i] matches Some(diff)
                    &&& #[trigger] detected(files, diffs, search, n)[k] == (
                        detected_name(diff, files[i].file_name@),
                        diff,
                    )
                },
    decreases n,
{
    if 0 < n {
        let before = detected(files, diffs, search, n - 1);
        let now = detected(files, diffs, search, n);
        detected_modules_are_in_lua_files(files, diffs, search, n - 1);
        assert forall|k: int| 0 <= k < now.len() implies exists|i: int|
            {
                &&& 0 <= i < n
                &&& is_detected(#[trigger] files[i], search)
                &&& diffs[i] matches Some(diff)
                &&& #[trigger] now[k] == (detected_name(diff, files[i].file_name@), diff)
            } by {
            if k < before.len() {
                let pair = before[k];
                let i = choose|i: int|
                    {
                        &&& 0 <= i < n - 1
                        &&& is_detected(#[trigger] files[i], search)
                        &&& diffs[i] matches Some(diff)
                        &&& pair == (detected_name(diff, files[i].file_name@), diff)
                    };
                assert(is_detected(files[i], search));
                assert(now[k] == before[k]);
            } else {
                assert(is_detected(files[n - 1], search));
            }
        }
    }
}

/// Every source file that a module of the rockspec lists is excluded.
pub proof fn listed_sources_are_excluded(
    style: PathStyle,
    build_dir: Seq<char>,
    entries: Seq<(LuaModule, ModuleSpec)>,
    i: int,
    source: Seq<char>,
)
    requires
        0 <= i < entries.len(),
        sources_of(entries[i].1).contains(source),
    ensures
        contains_path(style, all_sources(style, build_dir, entries), joined_in(style, build_dir, source)),
    decreases entries.len(),
{
    let before = all_sources(style, build_dir, entries.drop_last());
    let last = all_joined(style, build_dir, sources_of(entries.last().1));
    let path = joined_in(style, build_dir, source);
    let all = all_sources(style, build_dir, entries);
    if i < entries.len() - 1 {
        listed_sources_are_excluded(style, build_dir, entries.drop_last(), i, source);
        let k = choose|k: int| 0 <= k < before.len() && same_path(style, #[trigger] before[k], path);
        assert(all[k] == before[k]);
    } else {
        let sources = sources_of(entries[i].1);
        let k = choose|k: int| 0 <= k < sources.len() && sources[k] == source;
        assert(last[k] == path);
        assert(all[before.len() + k] == path);
    }
}

proof fn lemma_bare_module_name(module: Seq<char>)
    requires
        is_plain_module(module),
        !module.contains('.'),
    ensures
        module_name(module) == module,
{
    reveal_strlit("init.");
    reveal_strlit(".");
    reveal_strlit("/");
    assert("."@ == seq!['.']);
    lemma_no_extension(module);
    let ext = extension_or_empty(module);
    assert(ext == Seq::<char>::empty());
    let last = module[module.len() - 1];
    assert(module.contains(last));
    assert("init."@ + ext == "init."@);
    assert("."@ + ext == "."@);
    assert(trim_end(module, "init."@) == module) by {
        if "init."@.is_suffix_of(module) {
            assert(module.subrange(module.len() - 5, module.len() as int)[4] == last);
        }
    }
    assert(trim_end(module, "."@) == module) by {
        if "."@.is_suffix_of(module) {
            assert(module.subrange(module.len() - 1, module.len() as int)[0] == last);
        }
    }
    assert(trim_end(module, "/"@) == module) by {
        if "/"@.is_suffix_of(module) {
            assert(module.subrange(module.len() - 1, module.len() as int)[0] == last);
        }
    }
    assert forall|i: int| 0 <= i < module.len() implies replaced(module, '/', '.')[i]
        == module[i] by {
        assert(module.contains(module[i]));
    }
    assert(replaced(module, '/', '.') == module);
}

/// The module that is detected in the Lua file that a module name stands for has that name, so
/// that the file keeps its path. The name does not end with `init`, unless that is the last part
/// of the name or all of it.
pub proof fn detected_module_keeps_its_path(diff: Seq<char>, file: Seq<char>, module: Seq<char>)
    requires
        is_plain_module(module),
        below_first(diff) == path_of_module(module) + ".lua"@,
        file_name(below_first(diff)) == Some(file),
        module.contains('.') && "init"@.is_suffix_of(module) ==> exists|dir: Seq<char>| #[trigger]
            is_plain_module(dir) && module == dir + ".init"@,
    ensures
        detected_name(diff, file) == module,
        path_of_module(detected_name(diff, file)) + ".lua"@ == below_first(diff),
{
    reveal_strlit(".lua");
    reveal_strlit("lua");
    reveal_strlit(".");
    reveal_strlit("init");
    reveal_strlit(".init");
    reveal_strlit("init.lua");
    let stem = path_of_module(module);
    let path = below_first(diff);
    lemma_plain_path(module);
    assert(path == stem + seq!['.'] + "lua"@);
    assert(".lua"@ == "."@ + "lua"@);
    extension_is_what_was_appended(stem, "lua"@);
    parent_of_a_bare_name_is_empty(path);
    assert(path.contains('/') <==> stem.contains('/')) by {
        if stem.contains('/') {
            let i = choose|i: int| 0 <= i < stem.len() && stem[i] == '/';
            assert(path[i] == '/');
        }
        if path.contains('/') {
            let i = choose|i: int| 0 <= i < path.len() && path[i] == '/';
            assert(stem[i] == '/');
        }
    }
    assert(stem.contains('/') <==> module.contains('.')) by {
        if stem.contains('/') {
            let i = choose|i: int| 0 <= i < stem.len() && stem[i] == '/';
            assert(module.contains(module[i]));
            assert(module[i] == '.');
        }
        if module.contains('.') {
            let i = choose|i: int| 0 <= i < module.len() && module[i] == '.';
            assert(stem[i] == '/');
        }
    }
    if !module.contains('.') {
        assert(is_top_level(diff));
        assert(stem == module) by {
            assert forall|i: int| 0 <= i < module.len() implies stem[i] == module[i] by {
                assert(module.contains(module[i]));
            }
        }
        lemma_bare_module_name(module);
    } else if "init"@.is_suffix_of(module) {
        let dir = choose|dir: Seq<char>| #[trigger] is_plain_module(dir) && module == dir + ".init"@;
        module_is_read_from_its_init_path(dir);
        lemma_plain_path(dir);
        assert(path == joined(path_of_module(dir), "init.lua"@));
        let name = split(stem, '/').last();
        assert(stem == path_of_module(dir) + seq!['/'] + "init"@);
        lemma_split_one("init"@, '/');
        lemma_split_concat(path_of_module(dir), "init"@, '/');
        assert(name == "init"@);
        assert(file == "init.lua"@);
        assert(dir + "."@ + "init"@ == module);
    } else {
        module_is_read_from_its_path(module, "lua"@);
        let name = split(stem, '/').last();
        assert(file == name + seq!['.'] + "lua"@);
        if file == "init.lua"@ {
            assert(file.len() == name.len() + 4);
            assert forall|i: int| 0 <= i < 4 implies name[i] == "init"@[i] by {
                assert(file[i] == name[i]);
            }
            lemma_join_split(stem, '/');
            let pieces = split(stem, '/');
            assert(stem.len() >= 4);
            assert forall|i: int| 0 <= i < 4 implies module.subrange(
                module.len() - 4,
                module.len() as int,
            )[i] == "init"@[i] by {
                assert(stem[stem.len() - 4 + i] == name[i]);
            }
            assert(module.subrange(module.len() - 4, module.len() as int) == "init"@);
        }
    }
}

/// The modules of the rockspec count where a module with the same name was detected, and the
/// other modules that were detected are built too.
pub proof fn rockspec_modules_come_first(
    found: Map<Seq<char>, ModuleSpec>,
    modules: Map<Seq<char>, ModuleSpec>,
    name: Seq<char>,
)
    ensures
        modules.contains_key(name) ==> built_modules(found, modules).contains_key(name)
            && built_modules(found, modules)[name] == modules[name],
        !modules.contains_key(name) && found.contains_key(name) ==> built_modules(
            found,
            modules,
        ).contains_key(name) && built_modules(found, modules)[name] == found[name],
        built_modules(found, modules).contains_key(name) ==> modules.contains_key(name)
            || found.contains_key(name),
{
}

/// What is done with a module.
pub open spec fn is_action(
    style: PathStyle,
    build_dir: Seq<char>,
    spec: ModuleSpec,
    action: ModuleAction,
) -> bool {
    match spec {
        ModuleSpec::SourcePath(source) => if extension(source@) == Some("c"@) {
            action matches ModuleAction::CompileFiles(paths) && texts(paths@) == seq![
                joined_in(style, build_dir, source@),
            ]
        } else {
            action matches ModuleAction::CopyLua(path) && path@ == joined_in(style, build_dir, source@)
        },
        ModuleSpec::SourcePaths(files) => action matches ModuleAction::CompileFiles(paths) && texts(
            paths@,
        ) == all_joined(style, build_dir, texts(files@)),
        ModuleSpec::ModulePaths(paths) => action == ModuleAction::CompileModule(paths),
    }
}

/// What is said while that is done.
pub open spec fn step_message(module: Seq<char>, spec: ModuleSpec) -> Seq<char> {
    match spec {
        ModuleSpec::SourcePath(source) => if extension(source@) == Some("c"@) {
            "Compiling "@ + source@ + " -> "@ + module + "..."@
        } else {
            "Copying "@ + source@ + " to "@ + module + "..."@
        },
        ModuleSpec::SourcePaths(_) => "Compiling C files..."@,
        ModuleSpec::ModulePaths(_) => "Compiling C modules..."@,
    }
}

/// The step builds the module.
pub open spec fn is_step(
    style: PathStyle,
    build_dir: Seq<char>,
    entry: (LuaModule, ModuleSpec),
    step: ModuleStep,
) -> bool {
    &&& step.module@ == entry.0@
    &&& step.message@ == step_message(entry.0@, entry.1)
    &&& is_action(style, build_dir, entry.1, step.action)
}

/// Four strings one after the other, and then three dots.
fn progress_message(verb: &str, source: &str, between: &str, module: &str) -> (r: String)
    ensures
        r@ == verb@ + source@ + between@ + module@ + "..."@,
{
    concat(
        concat(concat(concat(verb, source).as_str(), between).as_str(), module).as_str(),
        "...",
    )
}

/// The step that builds the module.
pub fn module_step(build_dir: &str, module: LuaModule, spec: ModuleSpec, style: PathStyle) -> (r:
    ModuleStep)
    ensures
        is_step(style, build_dir@, (module, spec), r),
{
    match spec {
        ModuleSpec::SourcePath(source) => {
            let is_c = match path_extension(source.as_str()) {
                Some(ext) => same_text(ext.as_str(), "c"),
                None => false,
            };
            let path = path_join_in(style, build_dir, source.as_str());
            if is_c {
                let message = progress_message(
                    "Compiling ",
                    source.as_str(),
                    " -> ",
                    module.as_str(),
                );
                let mut paths: Vec<String> = Vec::new();
                paths.push(path);
                assert(texts(paths@) == seq![path@]);
                ModuleStep { module, message, action: ModuleAction::CompileFiles(paths) }
            } else {
                let message = progress_message("Copying ", source.as_str(), " to ", module.as_str());
                ModuleStep { module, message, action: ModuleAction::CopyLua(path) }
            }
        },
        ModuleSpec::SourcePaths(files) => {
            let mut paths: Vec<String> = Vec::new();
            append_joined(&mut paths, build_dir, &files, style);
            assert(texts(paths@) == all_joined(style, build_dir@, texts(files@)));
            ModuleStep {
                module,
                message: copy("Compiling C files..."),
                action: ModuleAction::CompileFiles(paths),
            }
        },
        ModuleSpec::ModulePaths(paths) => ModuleStep {
            module,
            message: copy("Compiling C modules..."),
            action: ModuleAction::CompileModule(paths),
        },
    }
}

/// The modules to build: those that were detected and those of the rockspec, which count where
/// both have a module.
pub open spec fn built_modules(
    detected: Map<Seq<char>, ModuleSpec>,
    modules: Map<Seq<char>, ModuleSpec>,
) -> Map<Seq<char>, ModuleSpec> {
    detected.union_prefer_right(modules)
}

/// The steps build the modules, one step for each.
pub open spec fn are_steps(
    style: PathStyle,
    build_dir: Seq<char>,
    modules: Map<Seq<char>, ModuleSpec>,
    steps: Seq<ModuleStep>,
) -> bool {
    &&& forall|i: int|
        0 <= i < steps.len() ==> modules.contains_key((#[trigger] steps[i]).module@)
            && steps[i].message@ == step_message(steps[i].module@, modules[steps[i].module@])
            && is_action(style, build_dir, modules[steps[i].module@], steps[i].action)
    &&& forall|name: Seq<char>| #[trigger]
        modules.contains_key(name) ==> exists|i: int|
            0 <= i < steps.len() && (#[trigger] steps[i]).module@ == name
    &&& forall|i: int, j: int|
        0 <= i < j < steps.len() ==> #[trigger] steps[i].module@ != #[trigger] steps[j].module@
}

/// The steps that build the modules of the table.
pub fn module_steps(
    build_dir: &str,
    modules: Table<LuaModule, ModuleSpec>,
    style: PathStyle,
) -> (r: Vec<ModuleStep>)
    ensures
        are_steps(style, build_dir@, modules@, r@),
{
    let ghost map = modules@;
    let entries = modules.into_entries();
    let ghost all = entries@;
    let mut r: Vec<ModuleStep> = Vec::new();
    for entry in it: entries
        invariant
            it.seq() == all,
            r@.len() == it.index(),
            forall|i: int| 0 <= i < it.index() ==> is_step(style, build_dir@, all[i], #[trigger] r@[i]),
    {
        let ghost i = it.index();
        assert(all[i] == entry);
        r.push(module_step(build_dir, entry.0, entry.1, style));
    }
    proof {
        lemma_entries_map(all);
        assert forall|i: int| 0 <= i < r@.len() implies map.contains_key(
            (#[trigger] r@[i]).module@,
        ) && r@[i].message@ == step_message(r@[i].module@, map[r@[i].module@]) && is_action(
            style,
            build_dir@,
            map[r@[i].module@],
            r@[i].action,
        ) by {
            assert(all[i].0@ == r@[i].module@);
            assert(entries_map(all)[all[i].0@] == all[i].1);
        }
        assert forall|name: Seq<char>| #[trigger] map.contains_key(name) implies exists|i: int|
            0 <= i < r@.len() && (#[trigger] r@[i]).module@ == name by {
            let i = choose|i: int| 0 <= i < all.len() && (#[trigger] all[i]).0@ == name;
            assert(r@[i].module@ == name);
        }
        assert forall|i: int, j: int| 0 <= i < j < r@.len() implies #[trigger] r@[i].module@
            != #[trigger] r@[j].module@ by {
            assert(all[i].0@ != all[j].0@);
        }
    }
    r
}

impl BuiltinBuildSpec {
    /// The steps that build the modules of the rockspec and those in the Lua files that were found
    /// in [`module_dirs`]. After them the scripts that are found in [`script_dirs`] are installed,
    /// see [`autodetect_bin_scripts`], [`bin_targets`] and [`installed_names`].
    pub fn run(self, build_dir: &str, files: &Vec<WalkedFile>, style: PathStyle) -> (r: Result<
        Vec<ModuleStep>,
        ParseLuaModuleError,
    >)
        ensures
            exists|diffs: Seq<Option<Seq<char>>>, found: Result<
                Table<LuaModule, ModuleSpec>,
                ParseLuaModuleError,
            >|
                #![trigger are_relative(style, build_dir@, files@, diffs), are_detected(
                    files@,
                    diffs,
                    search_of(
                        style,
                        build_dir@,
                        all_sources(style, build_dir@, self.modules.entries()),
                    ),
                    found,
                )]
                {
                    &&& are_relative(style, build_dir@, files@, diffs)
                    &&& are_detected(
                        files@,
                        diffs,
                        search_of(
                            style,
                            build_dir@,
                            all_sources(style, build_dir@, self.modules.entries()),
                        ),
                        found,
                    )
                    &&& match (found, r) {
                        (Ok(found), Ok(steps)) => are_steps(
                            style,
                            build_dir@,
                            built_modules(found@, self.modules@),
                            steps@,
                        ),
                        (Err(err), Err(returned)) => err == returned,
                        _ => false,
                    }
                },
    {
        let exclude = source_paths(build_dir, &self.modules, style);
        let found = autodetect_modules(build_dir, files, &exclude, style);
        let ghost result = found;
        let ghost diffs = choose|diffs: Seq<Option<Seq<char>>>| #[trigger]
            are_relative(style, build_dir@, files@, diffs) && are_detected(
                files@,
                diffs,
                search_of(style, build_dir@, texts(exclude@)),
                result,
            );
        assert(are_relative(style, build_dir@, files@, diffs));
        assert(are_detected(
            files@,
            diffs,
            search_of(
                style,
                build_dir@,
                all_sources(style, build_dir@, self.modules.entries()),
            ),
            result,
        ));
        match found {
            Ok(found) => Ok(module_steps(build_dir, found.merge(self.modules), style)),
            Err(err) => Err(err),
        }
    }
}

/// The directories below the build directory that are searched for scripts.
pub open spec fn script_dirs_of(style: PathStyle, build_dir: Seq<char>) -> Seq<Seq<char>> {
    seq![
        joined_in(style, joined_in(style, build_dir, "src"@), "bin"@),
        joined_in(style, build_dir, "bin"@),
    ]
}

/// The directories below the build directory that are searched for scripts.
pub fn script_dirs(build_dir: &str, style: PathStyle) -> (r: Vec<String>)
    ensures
        texts(r@) == script_dirs_of(style, build_dir@),
{
    let mut r: Vec<String> = Vec::new();
    let src = path_join_in(style, build_dir, "src");
    r.push(path_join_in(style, src.as_str(), "bin"));
    r.push(path_join_in(style, build_dir, "bin"));
    assert(texts(r@) == script_dirs_of(style, build_dir@));
    r
}

/// The files among the entries that are in the directories.
pub open spec fn files_in(
    style: PathStyle,
    dirs: Seq<Seq<char>>,
    entries: Seq<(String, bool)>,
) -> Seq<Seq<char>>
    decreases entries.len(),
{
    if entries.len() == 0 {
        Seq::empty()
    } else if entries.last().1 && is_in(style, dirs, entries.last().0@) {
        files_in(style, dirs, entries.drop_last()).push(entries.last().0@)
    } else {
        files_in(style, dirs, entries.drop_last())
    }
}

/// The scripts among the paths that were found in [`script_dirs`], each with whether it is a file.
/// A file that is elsewhere is no script.
pub fn autodetect_bin_scripts(build_dir: &str, entries: Vec<(String, bool)>, style: PathStyle) -> (r:
    Vec<String>)
    ensures
        texts(r@) == files_in(style, script_dirs_of(style, build_dir@), entries@),
{
    let dirs = script_dirs(build_dir, style);
    let ghost places = script_dirs_of(style, build_dir@);
    let ghost all = entries@;
    let mut r: Vec<String> = Vec::new();
    assert(texts(r@) == files_in(style, places, all.take(0)));
    for entry in it: entries
        invariant
            it.seq() == all,
            texts(dirs@) == places,
            texts(r@) == files_in(style, places, all.take(it.index())),
    {
        let ghost i = it.index();
        let ghost before = r@;
        proof {
            assert(all[i] == entry);
            assert(all.take(i + 1).drop_last() == all.take(i));
        }
        if entry.1 && dirs_hold(style, &dirs, entry.0.as_str()) {
            r.push(entry.0);
            assert(texts(r@) == texts(before).push(entry.0@));
        }
    }
    assert(all.take(all.len() as int) == all);
    r
}

/// The paths that have a file name.
pub open spec fn with_file_names(paths: Seq<Seq<char>>) -> Seq<(Seq<char>, Seq<char>)>
    decreases paths.len(),
{
    if paths.len() == 0 {
        Seq::empty()
    } else {
        match file_name(paths.last()) {
            Some(name) => with_file_names(paths.drop_last()).push((paths.last(), name)),
            None => with_file_names(paths.drop_last()),
        }
    }
}

/// The scripts and the names that they are installed under.
pub open spec fn script_pairs(scripts: Seq<BinScript>) -> Seq<(Seq<char>, Seq<char>)> {
    scripts.map_values(|script: BinScript| (script.path@, script.name@))
}

/// The scripts to install, each under its file name. A path without a file name is left out.
pub fn bin_targets(scripts: Vec<String>) -> (r: Vec<BinScript>)
    ensures
        script_pairs(r@) == with_file_names(texts(scripts@)),
{
    let ghost all = texts(scripts@);
    let mut r: Vec<BinScript> = Vec::new();
    assert(script_pairs(r@) == with_file_names(all.take(0)));
    for path in it: scripts
        invariant
            texts(it.seq()) == all,
            script_pairs(r@) == with_file_names(all.take(it.index())),
    {
        let ghost i = it.index();
        let ghost before = r@;
        proof {
            assert(all[i] == path@);
            assert(all.take(i + 1).drop_last() == all.take(i));
        }
        if let Some(name) = path_file_name(path.as_str()) {
            r.push(BinScript { path, name });
            assert(script_pairs(r@) == script_pairs(before).push((path@, name@)));
        }
    }
    assert(all.take(all.len() as int) == all);
    r
}

/// The file names of the paths that have one, in order.
pub open spec fn file_names_of(paths: Seq<Seq<char>>) -> Seq<Seq<char>>
    decreases paths.len(),
{
    if paths.len() == 0 {
        Seq::empty()
    } else {
        match file_name(paths.last()) {
            Some(name) => file_names_of(paths.drop_last()).push(name),
            None => file_names_of(paths.drop_last()),
        }
    }
}

/// The names of the scripts that were installed, where `installed` has the path of each one.
pub fn installed_names(installed: Vec<String>) -> (r: Vec<String>)
    ensures
        texts(r@) == file_names_of(texts(installed@)),
{
    let ghost all = texts(installed@);
    let mut r: Vec<String> = Vec::new();
    assert(texts(r@) == file_names_of(all.take(0)));
    for path in it: installed
        invariant
            texts(it.seq()) == all,
            texts(r@) == file_names_of(all.take(it.index())),
    {
        let ghost i = it.index();
        let ghost before = r@;
        proof {
            assert(all[i] == path@);
            assert(all.take(i + 1).drop_last() == all.take(i));
        }
        if let Some(name) = path_file_name(path.as_str()) {
            r.push(name);
            assert(texts(r@) == texts(before).push(name@));
        }
    }
    assert(all.take(all.len() as int) == all);
    r
}

/// Every list of a C module of the rockspec reaches the compiler unchanged: its sources, its
/// libraries, its definitions, and the directories of its headers and of its libraries. The step
/// is that of the module.
pub proof fn c_module_is_compiled_as_given(
    build_dir: &str,
    module: LuaModule,
    paths: ModulePaths,
    style: PathStyle,
    r: ModuleStep,
)
    requires
        call_ensures(module_step, (build_dir, module, ModuleSpec::ModulePaths(paths), style), r),
    ensures
        r.module@ == module@,
        r.message@ == "Compiling C modules..."@,
        r.action is CompileModule,
        r.action->CompileModule_0.sources == paths.sources,
        r.action->CompileModule_0.libraries == paths.libraries,
        r.action->CompileModule_0.defines == paths.defines,
        r.action->CompileModule_0.incdirs == paths.incdirs,
        r.action->CompileModule_0.libdirs == paths.libdirs,
{
}

/// Every file of a module of C files is compiled, in the given order and in the directory of the
/// build, and no other.
pub proof fn listed_files_are_compiled(
    build_dir: &str,
    module: LuaModule,
    files: Vec<String>,
    style: PathStyle,
    r: ModuleStep,
    i: int,
    file: &str,
    path: String,
)
    requires
        call_ensures(module_step, (build_dir, module, ModuleSpec::SourcePaths(files), style), r),
    ensures
        r.module@ == module@,
        r.message@ == "Compiling C files..."@,
        r.action is CompileFiles,
        r.action->CompileFiles_0@.len() == files@.len(),
        0 <= i < files@.len() && file@ == files@[i]@ && call_ensures(
            path_join_in,
            (style, build_dir, file),
            path,
        ) ==> r.action->CompileFiles_0@[i]@ == path@,
{
    let paths = texts(r.action->CompileFiles_0@);
    assert(paths == all_joined(style, build_dir@, texts(files@)));
    assert(paths.len() == files@.len());
    if 0 <= i < files@.len() {
        assert(paths[i] == r.action->CompileFiles_0@[i]@);
        assert(texts(files@)[i] == files@[i]@);
    }
}

/// A module of one source is compiled if its source has the extension of C files, and copied
/// otherwise; either way it is the source in the directory of the build. What is done is said in
/// its message.
pub proof fn single_source_is_compiled_or_copied(
    build_dir: &str,
    module: LuaModule,
    source: String,
    style: PathStyle,
    r: ModuleStep,
    file: &str,
    ext: Option<String>,
    path: String,
)
    requires
        call_ensures(module_step, (build_dir, module, ModuleSpec::SourcePath(source), style), r),
        file@ == source@,
        call_ensures(path_extension, (file,), ext),
        call_ensures(path_join_in, (style, build_dir, file), path),
    ensures
        r.module@ == module@,
        ext is Some && ext->0@ == "c"@ ==> {
            &&& r.message@ == "Compiling "@ + source@ + " -> "@ + module@ + "..."@
            &&& r.action is CompileFiles
            &&& r.action->CompileFiles_0@.len() == 1
            &&& r.action->CompileFiles_0@[0]@ == path@
        },
        !(ext is Some && ext->0@ == "c"@) ==> {
            &&& r.message@ == "Copying "@ + source@ + " to "@ + module@ + "..."@
            &&& r.action is CopyLua
            &&& r.action->CopyLua_0@ == path@
        },
{
    if ext is Some && ext->0@ == "c"@ {
        let paths = texts(r.action->CompileFiles_0@);
        assert(paths == seq![joined_in(style, build_dir@, source@)]);
        assert(paths.len() == 1);
        assert(paths[0] == r.action->CompileFiles_0@[0]@);
    }
}

/// There is one step for every module and none for anything else, and the lists of a C module
/// reach the compiler unchanged.
pub proof fn every_module_has_its_step(
    build_dir: &str,
    modules: Table<LuaModule, ModuleSpec>,
    style: PathStyle,
    r: Vec<ModuleStep>,
)
    requires
        call_ensures(module_steps, (build_dir, modules, style), r),
    ensures
        forall|i: int|
            0 <= i < r@.len() ==> modules@.contains_key((#[trigger] r@[i]).module@) && (
            modules@[r@[i].module@] matches ModuleSpec::ModulePaths(paths) ==> {
                &&& r@[i].action is CompileModule
                &&& r@[i].action->CompileModule_0.sources == paths.sources
                &&& r@[i].action->CompileModule_0.libraries == paths.libraries
                &&& r@[i].action->CompileModule_0.defines == paths.defines
                &&& r@[i].action->CompileModule_0.incdirs == paths.incdirs
                &&& r@[i].action->CompileModule_0.libdirs == paths.libdirs
            }),
        forall|i: int|
            0 <= i < r@.len() && modules@[(#[trigger] r@[i]).module@] is SourcePaths
                ==> r@[i].action is CompileFiles && r@[i].action->CompileFiles_0@.len()
                == modules@[r@[i].module@]->SourcePaths_0@.len(),
        forall|name: Seq<char>| #[trigger]
            modules@.contains_key(name) ==> exists|i: int|
                0 <= i < r@.len() && (#[trigger] r@[i]).module@ == name,
        forall|i: int, j: int|
            0 <= i < j < r@.len() ==> (#[trigger] r@[i]).module@ != (#[trigger] r@[j]).module@,
{
    assert forall|i: int|
        0 <= i < r@.len() && modules@[(#[trigger] r@[i]).module@] is SourcePaths implies r@[i].action
        is CompileFiles && r@[i].action->CompileFiles_0@.len()
        == modules@[r@[i].module@]->SourcePaths_0@.len() by {
        let spec = modules@[r@[i].module@];
        assert(is_action(style, build_dir@, spec, r@[i].action));
        assert(texts(r@[i].action->CompileFiles_0@).len() == texts(spec->SourcePaths_0@).len());
    }
}

/// Every module of the rockspec is built, once, and as the rockspec has it: the five lists of a
/// C module reach the compiler unchanged, and a module of C files is compiled from as many files.
pub proof fn rockspec_modules_are_built_as_given(
    spec: BuiltinBuildSpec,
    build_dir: &str,
    files: &Vec<WalkedFile>,
    style: PathStyle,
    steps: Vec<ModuleStep>,
    name: Seq<char>,
)
    requires
        call_ensures(
            BuiltinBuildSpec::run,
            (spec, build_dir, files, style),
            Ok::<Vec<ModuleStep>, ParseLuaModuleError>(steps),
        ),
        spec.modules@.contains_key(name),
    ensures
        exists|i: int| 0 <= i < steps@.len() && (#[trigger] steps@[i]).module@ == name,
        forall|i: int, j: int|
            0 <= i < j < steps@.len() ==> (#[trigger] steps@[i]).module@ != (
            #[trigger] steps@[j]).module@,
        forall|i: int|
            0 <= i < steps@.len() && (#[trigger] steps@[i]).module@ == name ==> {
                let given = spec.modules@[name];
                let action = steps@[i].action;
                &&& given is ModulePaths ==> {
                    &&& action is CompileModule
                    &&& action->CompileModule_0.sources == given->ModulePaths_0.sources
                    &&& action->CompileModule_0.libraries == given->ModulePaths_0.libraries
                    &&& action->CompileModule_0.defines == given->ModulePaths_0.defines
                    &&& action->CompileModule_0.incdirs == given->ModulePaths_0.incdirs
                    &&& action->CompileModule_0.libdirs == given->ModulePaths_0.libdirs
                }
                &&& given is SourcePaths ==> action is CompileFiles
                    && action->CompileFiles_0@.len() == given->SourcePaths_0@.len()
                &&& given is SourcePath ==> action is CopyLua || action is CompileFiles
            },
{
    let (diffs, found) = choose|
        diffs: Seq<Option<Seq<char>>>,
        found: Result<Table<LuaModule, ModuleSpec>, ParseLuaModuleError>,
    |
        #![trigger are_relative(style, build_dir@, files@, diffs), are_detected(
            files@,
            diffs,
            search_of(
                style,
                build_dir@,
                all_sources(style, build_dir@, spec.modules.entries()),
            ),
            found,
        )]
        {
            &&& are_relative(style, build_dir@, files@, diffs)
            &&& are_detected(
                files@,
                diffs,
                search_of(
                    style,
                    build_dir@,
                    all_sources(style, build_dir@, spec.modules.entries()),
                ),
                found,
            )
            &&& match found {
                Ok(found) => are_steps(
                    style,
                    build_dir@,
                    built_modules(found@, spec.modules@),
                    steps@,
                ),
                Err(_) => false,
            }
        };
    let all = built_modules(found->Ok_0@, spec.modules@);
    assert(all.contains_key(name));
    assert(all[name] == spec.modules@[name]);
    assert forall|i: int| 0 <= i < steps@.len() && (#[trigger] steps@[i]).module@ == name
        && spec.modules@[name] is SourcePaths implies steps@[i].action is CompileFiles
        && steps@[i].action->CompileFiles_0@.len() == spec.modules@[name]->SourcePaths_0@.len() by {
        assert(is_action(style, build_dir@, all[name], steps@[i].action));
        assert(texts(steps@[i].action->CompileFiles_0@).len() == texts(
            spec.modules@[name]->SourcePaths_0@,
        ).len());
    }
}

/// The module is made of the source.
pub open spec fn lists_source(spec: ModuleSpec, source: Seq<char>) -> bool {
    match spec {
        ModuleSpec::SourcePath(path) => path@ == source,
        ModuleSpec::SourcePaths(paths) => exists|i: int|
            0 <= i < paths@.len() && (#[trigger] paths@[i])@ == source,
        ModuleSpec::ModulePaths(paths) => exists|i: int|
            0 <= i < paths.sources@.len() && (#[trigger] paths.sources@[i])@ == source,
    }
}

proof fn lemma_sources_are_joined(
    style: PathStyle,
    build_dir: Seq<char>,
    entries: Seq<(LuaModule, ModuleSpec)>,
    k: int,
)
    requires
        0 <= k < all_sources(style, build_dir, entries).len(),
    ensures
        exists|i: int, source: Seq<char>|
            0 <= i < entries.len() && #[trigger] lists_source((#[trigger] entries[i]).1, source)
                && all_sources(style, build_dir, entries)[k] == joined_in(
                style,
                build_dir,
                source,
            ),
    decreases entries.len(),
{
    let all = all_sources(style, build_dir, entries);
    if 0 < entries.len() {
        let before = entries.drop_last();
        let less = all_sources(style, build_dir, before);
        if k < less.len() {
            lemma_sources_are_joined(style, build_dir, before, k);
            let (i, source) = choose|i: int, source: Seq<char>|
                0 <= i < before.len() && #[trigger] lists_source((#[trigger] before[i]).1, source)
                    && less[k] == joined_in(style, build_dir, source);
            assert(entries[i] == before[i]);
            assert(lists_source(entries[i].1, source));
            assert(all[k] == less[k]);
        } else {
            let last = entries[entries.len() - 1];
            let sources = sources_of(last.1);
            let j = k - less.len();
            let source = sources[j];
            assert(all[k] == all_joined(style, build_dir, sources)[j]);
            match last.1 {
                ModuleSpec::SourcePath(path) => {},
                ModuleSpec::SourcePaths(paths) => {
                    assert(paths@[j]@ == source);
                },
                ModuleSpec::ModulePaths(paths) => {
                    assert(paths.sources@[j]@ == source);
                },
            }
            assert(lists_source(last.1, source));
        }
    }
}

/// The source paths of some modules are their sources in the directory of the build: none is
/// left out, and none is added.
pub proof fn source_paths_are_those_of_the_modules(
    build_dir: &str,
    modules: &Table<LuaModule, ModuleSpec>,
    style: PathStyle,
    r: Vec<String>,
    i: int,
    source: &str,
    path: String,
)
    requires
        call_ensures(source_paths, (build_dir, modules, style), r),
        0 <= i < modules.entries().len(),
        lists_source(modules.entries()[i].1, source@),
        call_ensures(path_join_in, (style, build_dir, source), path),
    ensures
        exists|k: int| 0 <= k < r@.len() && (#[trigger] r@[k])@ == path@,
        forall|k: int|
            0 <= k < r@.len() ==> exists|j: int, s: Seq<char>|
                0 <= j < modules.entries().len() && #[trigger] lists_source(
                    (#[trigger] modules.entries()[j]).1,
                    s,
                ) && (#[trigger] r@[k])@ == joined_in(style, build_dir@, s),
{
    let entries = modules.entries();
    let all = texts(r@);
    lemma_listed_is_joined(style, build_dir@, entries, i, source@);
    let k = choose|k: int| 0 <= k < all.len() && #[trigger] all[k] == path@;
    assert(r@[k]@ == path@);
    assert forall|k: int| 0 <= k < r@.len() implies exists|j: int, s: Seq<char>|
        0 <= j < modules.entries().len() && #[trigger] lists_source(
            (#[trigger] modules.entries()[j]).1,
            s,
        ) && (#[trigger] r@[k])@ == joined_in(style, build_dir@, s) by {
        assert(all[k] == r@[k]@);
        lemma_sources_are_joined(style, build_dir@, entries, k);
    }
}

proof fn lemma_listed_is_joined(
    style: PathStyle,
    build_dir: Seq<char>,
    entries: Seq<(LuaModule, ModuleSpec)>,
    i: int,
    source: Seq<char>,
)
    requires
        0 <= i < entries.len(),
        lists_source(entries[i].1, source),
    ensures
        exists|k: int|
            0 <= k < all_sources(style, build_dir, entries).len() && #[trigger] all_sources(
                style,
                build_dir,
                entries,
            )[k] == joined_in(style, build_dir, source),
    decreases entries.len(),
{
    let all = all_sources(style, build_dir, entries);
    let before = entries.drop_last();
    let less = all_sources(style, build_dir, before);
    let path = joined_in(style, build_dir, source);
    if i < before.len() {
        assert(before[i] == entries[i]);
        lemma_listed_is_joined(style, build_dir, before, i, source);
        let k = choose|k: int| 0 <= k < less.len() && #[trigger] less[k] == path;
        assert(all[k] == path);
    } else {
        let sources = sources_of(entries[i].1);
        let j: int = match entries[i].1 {
            ModuleSpec::SourcePath(path) => 0,
            ModuleSpec::SourcePaths(paths) => choose|j: int|
                0 <= j < paths@.len() && (#[trigger] paths@[j])@ == source,
            ModuleSpec::ModulePaths(paths) => choose|j: int|
                0 <= j < paths.sources@.len() && (#[trigger] paths.sources@[j])@ == source,
        };
        assert(sources[j] == source);
        assert(all_joined(style, build_dir, sources)[j] == path);
        assert(all[less.len() + j] == path);
    }
}

/// Modules are looked for in `src`, `lua` and `lib` of the build directory, and scripts in its
/// `src/bin` and `bin`.
pub proof fn known_directories_are_searched(
    build_dir: &str,
    style: PathStyle,
    dirs: Vec<String>,
    scripts: Vec<String>,
    src: String,
    src_text: &str,
    lua: String,
    lib: String,
    src_bin: String,
    bin: String,
)
    requires
        call_ensures(module_dirs, (build_dir, style), dirs),
        call_ensures(script_dirs, (build_dir, style), scripts),
        call_ensures(path_join_in, (style, build_dir, "src"), src),
        call_ensures(path_join_in, (style, build_dir, "lua"), lua),
        call_ensures(path_join_in, (style, build_dir, "lib"), lib),
        src_text@ == src@,
        call_ensures(path_join_in, (style, src_text, "bin"), src_bin),
        call_ensures(path_join_in, (style, build_dir, "bin"), bin),
    ensures
        dirs@.len() == 3,
        dirs@[0]@ == src@,
        dirs@[1]@ == lua@,
        dirs@[2]@ == lib@,
        scripts@.len() == 2,
        scripts@[0]@ == src_bin@,
        scripts@[1]@ == bin@,
{
    let a = texts(dirs@);
    let b = texts(scripts@);
    assert(a.len() == 3 && b.len() == 2);
    assert(a[0] == dirs@[0]@ && a[1] == dirs@[1]@ && a[2] == dirs@[2]@);
    assert(b[0] == scripts@[0]@ && b[1] == scripts@[1]@);
}

proof fn lemma_files_in(style: PathStyle, dirs: Seq<Seq<char>>, entries: Seq<(String, bool)>)
    ensures
        files_in(style, dirs, entries) == entries.filter(
            |entry: (String, bool)| entry.1 && is_in(style, dirs, entry.0@),
        ).map_values(|entry: (String, bool)| entry.0@),
    decreases entries.len(),
{
    reveal(Seq::filter);
    let keep = |entry: (String, bool)| entry.1 && is_in(style, dirs, entry.0@);
    let path = |entry: (String, bool)| entry.0@;
    if 0 < entries.len() {
        let before = entries.drop_last();
        lemma_files_in(style, dirs, before);
        let kept = before.filter(keep);
        assert(kept.push(entries.last()).map_values(path) == kept.map_values(path).push(
            path(entries.last()),
        ));
    } else {
        assert(entries.filter(keep).map_values(path) == Seq::<Seq<char>>::empty());
    }
}

/// The scripts are the files below the two directories of scripts, all of them and in their
/// order; directories and what is elsewhere are left out.
pub proof fn scripts_are_the_files_in_the_script_directories(
    build_dir: &str,
    entries: Vec<(String, bool)>,
    style: PathStyle,
    r: Vec<String>,
    dirs: Vec<String>,
)
    requires
        call_ensures(autodetect_bin_scripts, (build_dir, entries, style), r),
        call_ensures(script_dirs, (build_dir, style), dirs),
    ensures
        dirs@.len() == 2,
        texts(r@) == entries@.filter(
            |entry: (String, bool)|
                entry.1 && (is_below(style, dirs@[0]@, entry.0@) || is_below(
                    style,
                    dirs@[1]@,
                    entry.0@,
                )),
        ).map_values(|entry: (String, bool)| entry.0@),
{
    let all = texts(dirs@);
    assert(all == script_dirs_of(style, build_dir@));
    assert(all.len() == 2);
    assert(all[0] == dirs@[0]@ && all[1] == dirs@[1]@);
    lemma_files_in(style, all, entries@);
    let a = |entry: (String, bool)| entry.1 && is_in(style, all, entry.0@);
    let b = |entry: (String, bool)|
        entry.1 && (is_below(style, dirs@[0]@, entry.0@) || is_below(style, dirs@[1]@, entry.0@));
    assert forall|entry: (String, bool)| #[trigger] a(entry) == b(entry) by {
        if b(entry) && entry.1 {
            if is_below(style, all[0], entry.0@) {
                assert(is_in(style, all, entry.0@));
            } else {
                assert(is_below(style, all[1], entry.0@));
                assert(is_in(style, all, entry.0@));
            }
        }
    }
    assert(a =~= b);
}

proof fn lemma_with_file_names(paths: Seq<Seq<char>>)
    ensures
        with_file_names(paths) == paths.filter(
            |path: Seq<char>| file_name(path) is Some,
        ).map_values(|path: Seq<char>| (path, file_name(path)->0)),
        file_names_of(paths) == paths.filter(
            |path: Seq<char>| file_name(path) is Some,
        ).map_values(|path: Seq<char>| file_name(path)->0),
    decreases paths.len(),
{
    reveal(Seq::filter);
    let named = |path: Seq<char>| file_name(path) is Some;
    let pair = |path: Seq<char>| (path, file_name(path)->0);
    let name = |path: Seq<char>| file_name(path)->0;
    if 0 < paths.len() {
        let before = paths.drop_last();
        lemma_with_file_names(before);
        let kept = before.filter(named);
        let last = paths.last();
        assert(kept.push(last).map_values(pair) == kept.map_values(pair).push(pair(last)));
        assert(kept.push(last).map_values(name) == kept.map_values(name).push(name(last)));
    } else {
        assert(paths.filter(named).map_values(pair) == Seq::<(Seq<char>, Seq<char>)>::empty());
        assert(paths.filter(named).map_values(name) == Seq::<Seq<char>>::empty());
    }
}

/// Every script with a file name is installed under that name, and no other. The names of what
/// was installed are the file names, in their order.
pub proof fn scripts_are_installed_under_their_names(
    scripts: Vec<String>,
    targets: Vec<BinScript>,
    names: Vec<String>,
)
    requires
        call_ensures(bin_targets, (scripts,), targets),
        call_ensures(installed_names, (scripts,), names),
    ensures
        targets@.map_values(|script: BinScript| script.path@) == texts(scripts@).filter(
            |path: Seq<char>| file_name(path) is Some,
        ),
        forall|i: int|
            0 <= i < targets@.len() ==> file_name((#[trigger] targets@[i]).path@) == Some(
                targets@[i].name@,
            ),
        names@.len() == targets@.len(),
        forall|i: int| 0 <= i < names@.len() ==> (#[trigger] names@[i])@ == targets@[i].name@,
{
    let all = texts(scripts@);
    lemma_with_file_names(all);
    let named = |path: Seq<char>| file_name(path) is Some;
    let kept = all.filter(named);
    let pairs = script_pairs(targets@);
    assert(pairs.len() == targets@.len());
    assert(texts(names@).len() == names@.len());
    assert forall|i: int| 0 <= i < targets@.len() implies (#[trigger] targets@[i]).path@ == kept[i]
        && file_name(targets@[i].path@) == Some(targets@[i].name@) && names@[i]@
        == targets@[i].name@ by {
        assert(pairs[i] == (targets@[i].path@, targets@[i].name@));
        assert(texts(names@)[i] == names@[i]@);
        assert(named(kept[i])) by {
            lemma_filter_holds(all, named, i);
        }
    }
}

proof fn lemma_filter_holds<A>(all: Seq<A>, keep: spec_fn(A) -> bool, i: int)
    requires
        0 <= i < all.filter(keep).len(),
    ensures
        keep(all.filter(keep)[i]),
    decreases all.len(),
{
    reveal(Seq::filter);
    if 0 < all.len() {
        let before = all.drop_last();
        if i < before.filter(keep).len() {
            lemma_filter_holds(before, keep, i);
        }
    }
}

/// The path has a slash where the module has a dot, and is the module otherwise.
pub open spec fn is_path_of(path: Seq<char>, module: Seq<char>) -> bool {
    path.len() == module.len() && forall|i: int|
        0 <= i < path.len() ==> #[trigger] path[i] == if module[i] == '.' {
            '/'
        } else {
            module[i]
        }
}

proof fn lemma_module_path(dir: Seq<char>, path: Seq<char>, module: Seq<char>)
    requires
        0 < dir.len(),
        !dir.contains('/'),
        is_plain_module(module),
        is_path_of(path, module),
        forall|i: int|
            0 <= i < split(path, '/').len() ==> 0 < (#[trigger] split(path, '/')[i]).len(),
    ensures
        path == path_of_module(module),
        is_tidy(path + ".lua"@),
        below_first(dir + seq!['/'] + (path + ".lua"@)) == path + ".lua"@,
        dir != seq!['.'] ==> is_tidy(dir + seq!['/'] + (path + ".lua"@)),
{
    reveal_strlit(".lua");
    let end = ".lua"@;
    assert(path == path_of_module(module));
    lemma_plain_path(module);
    lemma_pieces_hold_no_other(path, '/', '.');
    lemma_split_suffix(path, end, '/');
    lemma_split_len(path, '/');
    let file = path + end;
    let names = split(path, '/');
    let all = split(file, '/');
    assert forall|i: int| 0 <= i < all.len() implies 0 < (#[trigger] all[i]).len() && all[i] != seq![
        '.',
    ] by {
        if i < names.len() - 1 {
            assert(all[i] == names[i]);
            assert(!names[i].contains('.'));
            assert(seq!['.'].contains('.')) by {
                assert(seq!['.'][0] == '.');
            }
        } else {
            assert(all[i] == names.last() + end);
            assert(1 < all[i].len());
            assert(seq!['.'].len() == 1);
        }
    }
    assert(is_tidy(file));
    tidy_paths_have_their_names(dir, file);
    tidy_paths_are_collected(file);
    lemma_split_one(dir, '/');
    let one = seq![dir];
    assert(components(dir) == one) by {
        reveal_with_fuel(counted, 2);
        assert(split(dir, '/')[0] == dir);
        assert(!is_rooted(dir)) by {
            assert(dir.contains(dir[0]));
        }
    }
    assert((one + all).skip(1) == all);
    if dir != seq!['.'] {
        let whole = dir + seq!['/'] + file;
        lemma_split_concat(dir, file, '/');
        assert forall|i: int| 0 <= i < split(whole, '/').len() implies 0 < (#[trigger] split(
            whole,
            '/',
        )[i]).len() && split(whole, '/')[i] != seq!['.'] by {
            if 0 < i {
                assert(split(whole, '/')[i] == all[i - 1]);
            }
        }
    }
}

/// A Lua file below a directory is the module whose name is its path there, with a dot for each
/// slash and without the extension. A module that ends in `init` does so behind a dot, or has no
/// dot.
pub proof fn lua_file_is_the_module_of_its_path(
    dir: Seq<char>,
    path: Seq<char>,
    module: Seq<char>,
    diff: &str,
    file: &str,
    r: Result<LuaModule, ParseLuaModuleError>,
)
    requires
        call_ensures(detect_module, (diff, file), r),
        0 < dir.len(),
        !dir.contains('/'),
        is_plain_module(module),
        is_path_of(path, module),
        forall|i: int|
            0 <= i < split(path, '/').len() ==> 0 < (#[trigger] split(path, '/')[i]).len(),
        diff@ == dir + seq!['/'] + (path + ".lua"@),
        file@ == split(path, '/').last() + ".lua"@,
        module.contains('.') && "init"@.is_suffix_of(module) ==> exists|outer: Seq<char>| #[trigger]
            is_plain_module(outer) && module == outer + ".init"@,
    ensures
        r is Ok,
        r->Ok_0@ == module,
{
    reveal_strlit(".lua");
    reveal_strlit("lua");
    lemma_module_path(dir, path, module);
    lemma_plain_path(module);
    assert(path + ".lua"@ == path + seq!['.'] + "lua"@);
    extension_is_what_was_appended(path, "lua"@);
    assert(file@ == split(path, '/').last() + seq!['.'] + "lua"@);
    detected_module_keeps_its_path(diff@, file@, module);
    if module_name(named_path(diff@)).len() == 0 {
        lemma_named(diff@, file@, module);
    }
}

proof fn lemma_named(diff: Seq<char>, file: Seq<char>, module: Seq<char>)
    requires
        is_plain_module(module),
        below_first(diff) == path_of_module(module) + ".lua"@,
        file_name(below_first(diff)) == Some(file),
        module.contains('.') && "init"@.is_suffix_of(module) ==> exists|outer: Seq<char>| #[trigger]
            is_plain_module(outer) && module == outer + ".init"@,
        detected_name(diff, file) == module,
    ensures
        0 < module_name(named_path(diff)).len(),
{
    reveal_strlit("init");
    reveal_strlit(".");
    if module_name(named_path(diff)).len() == 0 {
        if !is_top_level(diff) && file == "init.lua"@ {
            let name = module_name(named_path(diff));
            reveal_strlit(".init");
            assert(module == name + "."@ + "init"@);
            assert(module[0] == '.');
            assert(module.subrange(module.len() - 4, module.len() as int) == "init"@);
            let outer = choose|outer: Seq<char>| #[trigger]
                is_plain_module(outer) && module == outer + ".init"@;
            assert(module.len() == outer.len() + 5);
        }
    }
}

proof fn lemma_detected_has(
    files: Seq<WalkedFile>,
    diffs: Seq<Option<Seq<char>>>,
    search: SearchView,
    n: int,
    i: int,
)
    requires
        0 <= i < n <= files.len(),
        files.len() == diffs.len(),
        is_detected(files[i], search),
        diffs[i] is Some,
    ensures
        exists|k: int|
            0 <= k < detected(files, diffs, search, n).len() && #[trigger] detected(
                files,
                diffs,
                search,
                n,
            )[k] == (detected_name(diffs[i]->0, files[i].file_name@), diffs[i]->0),
        i == n - 1 ==> detected(files, diffs, search, n).last() == (
            detected_name(diffs[i]->0, files[i].file_name@),
            diffs[i]->0,
        ),
    decreases n,
{
    let all = detected(files, diffs, search, n);
    let before = detected(files, diffs, search, n - 1);
    let pair = (detected_name(diffs[i]->0, files[i].file_name@), diffs[i]->0);
    if i < n - 1 {
        lemma_detected_has(files, diffs, search, n - 1, i);
        let k = choose|k: int| 0 <= k < before.len() && #[trigger] before[k] == pair;
        assert(all[k] == pair);
    } else {
        assert(all[all.len() - 1] == pair);
    }
}

/// Every Lua file in one of the directories that is not excluded is a module of the result, under
/// the name that `detect_module` gives it; a file that it gives no name makes the result an
/// error. Of the last file the module has the path.
pub proof fn lua_files_are_modules(
    files: &Vec<WalkedFile>,
    diffs: Vec<Option<String>>,
    dirs: &Vec<String>,
    exclude: &Vec<String>,
    style: PathStyle,
    r: Result<Table<LuaModule, ModuleSpec>, ParseLuaModuleError>,
    i: int,
    d: int,
    diff: &str,
    file: &str,
    module: Result<LuaModule, ParseLuaModuleError>,
)
    requires
        files@.len() == diffs@.len(),
        call_ensures(detect_modules, (files, diffs, dirs, exclude, style), r),
        0 <= i < files@.len(),
        0 <= d < dirs@.len(),
        diffs@[i] is Some,
        diff@ == diffs@[i]->0@,
        file@ == files@[i].file_name@,
        extension(file@) == Some("lua"@),
        is_below(style, dirs@[d]@, files@[i].path@),
        forall|k: int|
            0 <= k < exclude@.len() ==> !same_path(
                style,
                (#[trigger] exclude@[k])@,
                files@[i].path@,
            ),
        call_ensures(detect_module, (diff, file), module),
    ensures
        module is Err ==> r is Err,
        r is Ok ==> module is Ok && r->Ok_0@.contains_key(module->Ok_0@)
            && r->Ok_0@[module->Ok_0@] is SourcePath,
        r is Ok && i == files@.len() - 1 ==> r->Ok_0@[module->Ok_0@]->SourcePath_0@ == diff@,
{
    let ways = opt_texts(diffs@);
    let search = SearchView { style, dirs: texts(dirs@), exclude: texts(exclude@) };
    let n = files@.len() as int;
    assert(ways[i] == Some(diff@));
    assert(is_in(style, search.dirs, files@[i].path@)) by {
        assert(search.dirs[d] == dirs@[d]@);
    }
    assert(!contains_path(style, search.exclude, files@[i].path@)) by {
        if contains_path(style, search.exclude, files@[i].path@) {
            let k = choose|k: int|
                0 <= k < search.exclude.len() && same_path(
                    style,
                    #[trigger] search.exclude[k],
                    files@[i].path@,
                );
            assert(search.exclude[k] == exclude@[k]@);
        }
    }
    assert(is_detected(files@[i], search));
    if r is Ok {
        assert(!is_nameless(files@[i], ways[i], search));
        let pairs = detected(files@, ways, search, n);
        lemma_detected_has(files@, ways, search, n, i);
        let pair = (detected_name(diff@, file@), diff@);
        let k = choose|k: int| 0 <= k < pairs.len() && #[trigger] pairs[k] == pair;
        pairs_have_their_keys(pairs, k);
        assert(later_wins(pairs).contains_key(module->Ok_0@));
        assert(r->Ok_0@.dom().contains(module->Ok_0@));
        if i == n - 1 {
            last_pair_counts(pairs, pairs.len() - 1);
        }
    } else if module is Err {
        assert(is_nameless(files@[i], ways[i], search));
    }
    if r is Err && module is Err {
        assert(is_nameless(files@[i], ways[i], search));
    }
}

/// Nothing else is a module of the result: each of them is a Lua file in one of the directories,
/// is not excluded, and has the path of the file for its source.
pub proof fn modules_are_lua_files(
    files: &Vec<WalkedFile>,
    diffs: Vec<Option<String>>,
    dirs: &Vec<String>,
    exclude: &Vec<String>,
    style: PathStyle,
    r: Table<LuaModule, ModuleSpec>,
    name: Seq<char>,
)
    requires
        files@.len() == diffs@.len(),
        call_ensures(
            detect_modules,
            (files, diffs, dirs, exclude, style),
            Ok::<Table<LuaModule, ModuleSpec>, ParseLuaModuleError>(r),
        ),
        r@.contains_key(name),
    ensures
        r@[name] is SourcePath,
        exists|i: int, d: int|
            #![trigger files@[i], dirs@[d]]
            {
                &&& 0 <= i < files@.len()
                &&& 0 <= d < dirs@.len()
                &&& extension(files@[i].file_name@) == Some("lua"@)
                &&& is_below(style, dirs@[d]@, files@[i].path@)
                &&& forall|k: int|
                    0 <= k < exclude@.len() ==> !same_path(
                        style,
                        (#[trigger] exclude@[k])@,
                        files@[i].path@,
                    )
                &&& diffs@[i] is Some
                &&& r@[name]->SourcePath_0@ == diffs@[i]->0@
            },
{
    let ways = opt_texts(diffs@);
    let search = SearchView { style, dirs: texts(dirs@), exclude: texts(exclude@) };
    let n = files@.len() as int;
    let pairs = detected(files@, ways, search, n);
    let map = later_wins(pairs);
    assert(map.dom().contains(name));
    lemma_value_is_of_a_pair(pairs, name);
    let k = choose|k: int| 0 <= k < pairs.len() && #[trigger] pairs[k] == (name, map[name]);
    detected_modules_are_in_lua_files(files@, ways, search, n);
    let i = choose|i: int|
        {
            &&& 0 <= i < n
            &&& is_detected(#[trigger] files@[i], search)
            &&& ways[i] matches Some(diff)
            &&& pairs[k] == (detected_name(diff, files@[i].file_name@), diff)
        };
    assert(is_detected(files@[i], search));
    let d = choose|d: int|
        0 <= d < search.dirs.len() && is_below(style, #[trigger] search.dirs[d], files@[i].path@);
    assert(search.dirs[d] == dirs@[d]@);
    assert(ways[i] == opt_text(diffs@[i]));
    assert forall|k: int| 0 <= k < exclude@.len() implies !same_path(
        style,
        (#[trigger] exclude@[k])@,
        files@[i].path@,
    ) by {
        assert(search.exclude[k] == exclude@[k]@);
    }
}

proof fn lemma_value_is_of_a_pair<A, B>(pairs: Seq<(A, B)>, key: A)
    requires
        later_wins(pairs).contains_key(key),
    ensures
        exists|i: int|
            0 <= i < pairs.len() && #[trigger] pairs[i] == (key, later_wins(pairs)[key]),
    decreases pairs.len(),
{
    if 0 < pairs.len() {
        if pairs.last().0 == key {
            assert(pairs[pairs.len() - 1] == (key, later_wins(pairs)[key]));
        } else {
            let before = pairs.drop_last();
            lemma_value_is_of_a_pair(before, key);
            let i = choose|i: int|
                0 <= i < before.len() && #[trigger] before[i] == (key, later_wins(before)[key]);
            assert(pairs[i] == before[i]);
        }
    }
}

/// A Lua file in `src`, `lua` or `lib` of the build directory that is not excluded is found as the
/// module of its path there. Where it is the last file, the source of the module is its path in
/// the build directory.
pub proof fn lua_files_of_the_build_are_found(
    build_dir: &str,
    files: &Vec<WalkedFile>,
    exclude: &Vec<String>,
    style: PathStyle,
    r: Table<LuaModule, ModuleSpec>,
    i: int,
    dir: Seq<char>,
    path: Seq<char>,
    module: Seq<char>,
)
    requires
        call_ensures(
            autodetect_modules,
            (build_dir, files, exclude, style),
            Ok::<Table<LuaModule, ModuleSpec>, ParseLuaModuleError>(r),
        ),
        0 <= i < files@.len(),
        1 < build_dir@.len(),
        build_dir@[0] == '/',
        build_dir@.last() != '/',
        is_portable(build_dir@),
        is_portable(files@[i].path@),
        dir == "src"@ || dir == "lua"@ || dir == "lib"@,
        is_plain_module(module),
        is_path_of(path, module),
        forall|k: int|
            0 <= k < split(path, '/').len() ==> 0 < (#[trigger] split(path, '/')[k]).len(),
        files@[i].path@ == build_dir@ + seq!['/'] + (dir + seq!['/'] + (path + ".lua"@)),
        files@[i].file_name@ == split(path, '/').last() + ".lua"@,
        module.contains('.') && "init"@.is_suffix_of(module) ==> exists|outer: Seq<char>| #[trigger]
            is_plain_module(outer) && module == outer + ".init"@,
        forall|k: int|
            0 <= k < exclude@.len() ==> !same_path(
                style,
                (#[trigger] exclude@[k])@,
                files@[i].path@,
            ),
    ensures
        r@.contains_key(module),
        r@[module] is SourcePath,
        i == files@.len() - 1 ==> r@[module]->SourcePath_0@ == dir + seq!['/'] + (path + ".lua"@),
{
    let search = search_of(style, build_dir@, texts(exclude@));
    let diffs = choose|diffs: Seq<Option<Seq<char>>>| #[trigger]
        are_relative(style, build_dir@, files@, diffs) && are_detected(
            files@,
            diffs,
            search,
            Ok::<Table<LuaModule, ModuleSpec>, ParseLuaModuleError>(r),
        );
    assert forall|k: int| 0 <= k < texts(exclude@).len() implies !same_path(
        style,
        #[trigger] texts(exclude@)[k],
        files@[i].path@,
    ) by {
        assert(texts(exclude@)[k] == exclude@[k]@);
    }
    lemma_lua_file_is_found(
        style,
        build_dir@,
        files@,
        diffs,
        texts(exclude@),
        r,
        i,
        dir,
        path,
        module,
    );
}

proof fn lemma_lua_file_is_found(
    style: PathStyle,
    build: Seq<char>,
    files: Seq<WalkedFile>,
    diffs: Seq<Option<Seq<char>>>,
    exclude: Seq<Seq<char>>,
    r: Table<LuaModule, ModuleSpec>,
    i: int,
    dir: Seq<char>,
    path: Seq<char>,
    module: Seq<char>,
)
    requires
        are_relative(style, build, files, diffs),
        are_detected(
            files,
            diffs,
            search_of(style, build, exclude),
            Ok::<Table<LuaModule, ModuleSpec>, ParseLuaModuleError>(r),
        ),
        0 <= i < files.len(),
        1 < build.len(),
        build[0] == '/',
        build.last() != '/',
        is_portable(build),
        is_portable(files[i].path@),
        dir == "src"@ || dir == "lua"@ || dir == "lib"@,
        is_plain_module(module),
        is_path_of(path, module),
        forall|k: int|
            0 <= k < split(path, '/').len() ==> 0 < (#[trigger] split(path, '/')[k]).len(),
        files[i].path@ == build + seq!['/'] + (dir + seq!['/'] + (path + ".lua"@)),
        files[i].file_name@ == split(path, '/').last() + ".lua"@,
        module.contains('.') && "init"@.is_suffix_of(module) ==> exists|outer: Seq<char>| #[trigger]
            is_plain_module(outer) && module == outer + ".init"@,
        forall|k: int|
            0 <= k < exclude.len() ==> !same_path(
                style,
                #[trigger] exclude[k],
                files[i].path@,
            ),
    ensures
        r@.contains_key(module),
        r@[module] is SourcePath,
        i == files.len() - 1 ==> r@[module]->SourcePath_0@ == dir + seq!['/'] + (path + ".lua"@),
{
    reveal_strlit("src");
    reveal_strlit("lua");
    reveal_strlit("lib");
    reveal_strlit(".lua");
    let file = path + ".lua"@;
    let rel = dir + seq!['/'] + file;
    let whole = files[i].path@;
    let search = search_of(style, build, exclude);
    assert(dir.len() == 3 && !dir.contains('/') && dir != seq!['.']) by {
        assert(seq!['.'].len() == 1);
    }
    lemma_module_path(dir, path, module);
    lemma_plain_path(module);
    assert(is_relative_path(joined_in(style, build, whole), build, diffs[i]));
    portable_paths_have_no_style(style, build, whole);
    assert(joined_in(style, build, whole) == whole);
    relative_path_is_the_path_below(build, rel, diffs[i]);
    assert(diffs[i] == Some(rel));
    assert(file == path + seq!['.'] + "lua"@);
    extension_is_what_was_appended(path, "lua"@);
    let name = files[i].file_name@;
    assert(name == split(path, '/').last() + seq!['.'] + "lua"@);
    let last = split(path, '/').last();
    lemma_split_len(path, '/');
    lemma_pieces_hold_no_separator(path, '/');
    assert(0 < last.len() && !last.contains('/')) by {
        assert(split(path, '/')[split(path, '/').len() - 1] == last);
    }
    assert(last.contains(last[last.len() - 1]));
    extension_is_what_was_appended(last, "lua"@);
    detected_module_keeps_its_path(rel, name, module);
    lemma_named(rel, name, module);
    assert(is_portable(dir));
    portable_paths_have_no_style(style, build, dir);
    let base = joined_in(style, build, dir);
    assert(base == build + seq!['/'] + dir) by {
        assert(!dir.contains('/'));
        assert(dir.contains(dir[0]));
        assert(build.push('/') + dir == build + seq!['/'] + dir);
    }
    assert(is_below(style, base, whole)) by {
        assert(whole == base + seq!['/'] + file);
        assert(is_portable(base)) by {
            assert forall|c: char| !whole.contains(c) implies !(#[trigger] base.contains(c)) by {
                if base.contains(c) {
                    let k = choose|k: int| 0 <= k < base.len() && base[k] == c;
                    assert(whole[k] == c);
                }
            }
            assert(base[0] == whole[0] && base[1] == whole[1]);
        }
        portable_paths_have_no_style(style, build, base);
        tidy_paths_have_their_names(base, file);
        let a = components(base);
        assert((a + split(file, '/')).subrange(0, a.len() as int) == a);
    }
    assert(is_in(style, search.dirs, whole)) by {
        if dir == "src"@ {
            assert(search.dirs[0] == base);
        } else if dir == "lua"@ {
            assert(search.dirs[1] == base);
        } else {
            assert(search.dirs[2] == base);
        }
    }
    assert(is_detected(files[i], search));
    let n = files.len() as int;
    let pairs = detected(files, diffs, search, n);
    lemma_detected_has(files, diffs, search, n, i);
    let pair = (module, rel);
    let k = choose|k: int| 0 <= k < pairs.len() && #[trigger] pairs[k] == pair;
    pairs_have_their_keys(pairs, k);
    assert(r@.dom().contains(module));
    if i == n - 1 {
        last_pair_counts(pairs, pairs.len() - 1);
    }
}

/// An error of a builtin build says what failed, and why.
pub proof fn builtin_build_errors_say_what_failed(err: &BuiltinBuildError, r: String)
    requires
        call_ensures(BuiltinBuildError::to_message, (err,), r),
    ensures
        err is CompileCFiles ==> r@ == err->CompileCFiles_0@,
        err is CompileCModules ==> r@ == err->CompileCModules_0@,
        err is InstallBinary ==> r@ == "failed to install binary "@ + err->InstallBinary_0@ + ": "@
            + err->InstallBinary_1@,
        err is Io ==> r@ == err->Io_0@,
        err is Tree ==> r@ == err->Tree_0@,
{
}

/// An error of a module says what that error says.
pub proof fn module_errors_are_passed_on(
    err: &BuiltinBuildError,
    inner: &ParseLuaModuleError,
    r: String,
    of_inner: String,
)
    requires
        *err is ParseLuaModule,
        *inner == err->ParseLuaModule_0,
        call_ensures(BuiltinBuildError::to_message, (err,), r),
        call_ensures(ParseLuaModuleError::to_message, (inner,), of_inner),
    ensures
        r@ == of_inner@,
{
}

/// A file directly in a directory is the module that is read off its name without the extension.
/// One below a subdirectory is the module that is read off its path there, with `init` below it
/// for an `init.lua`. What is read off as nothing is refused.
pub proof fn files_are_modules_of_their_paths(
    dir: Seq<char>,
    rest: String,
    bare: String,
    rest_text: &str,
    diff: &str,
    file: &str,
    none: &str,
    r: Result<LuaModule, ParseLuaModuleError>,
    nested: Result<LuaModule, ParseLuaModuleError>,
    single: Result<LuaModule, ParseLuaModuleError>,
)
    requires
        call_ensures(detect_module, (diff, file), r),
        0 < dir.len(),
        !dir.contains('/'),
        is_tidy(rest@),
        rest_text@ == rest@,
        diff@ == dir + seq!['/'] + rest@,
        none@.len() == 0,
        call_ensures(path_with_extension, (rest_text, none), bare),
        call_ensures(LuaModule::from_pathbuf, (rest,), nested),
        call_ensures(LuaModule::from_pathbuf, (bare,), single),
    ensures
        !rest@.contains('/') ==> (r is Ok <==> single is Ok) && (r is Ok ==> r->Ok_0@
            == single->Ok_0@),
        rest@.contains('/') ==> (r is Ok <==> nested is Ok) && (r is Ok && file@ != "init.lua"@
            ==> r->Ok_0@ == nested->Ok_0@) && (r is Ok && file@ == "init.lua"@ ==> r->Ok_0@
            == nested->Ok_0@ + ".init"@),
{
    reveal_strlit(".");
    reveal_strlit("init");
    reveal_strlit(".init");
    assert("."@ + "init"@ == ".init"@);
    assert(none@ == Seq::<char>::empty());
    let path = rest@;
    tidy_paths_have_their_names(dir, path);
    tidy_paths_are_collected(path);
    lemma_split_one(dir, '/');
    let one = seq![dir];
    assert(components(dir) == one) by {
        reveal_with_fuel(counted, 2);
        assert(split(dir, '/')[0] == dir);
        assert(!is_rooted(dir)) by {
            assert(dir.contains(dir[0]));
        }
    }
    let names = split(path, '/');
    assert((one + names).skip(1) == names);
    assert(below_first(diff@) == path);
    lemma_split_len(path, '/');
    let last = names[names.len() - 1];
    assert(0 < last.len() && last != seq!['.']);
    lemma_ends_in_its_last_name(path);
    parent_of_a_bare_name_is_empty(path);
    assert(is_top_level(diff@) <==> !path.contains('/'));
    if r is Ok && path.contains('/') && file@ == "init.lua"@ {
        assert(r->Ok_0@ == module_name(path) + "."@ + "init"@);
        assert(module_name(path) + "."@ + "init"@ == module_name(path) + ".init"@);
    }
}

proof fn lemma_ends_in_its_last_name(path: Seq<char>)
    requires
        is_tidy(path),
    ensures
        0 < path.len(),
        path.last() != '/',
        path != seq!['.'],
        2 <= path.len() ==> !(path[path.len() - 1] == '.' && path[path.len() - 2] == '/'),
{
    let names = split(path, '/');
    lemma_split_len(path, '/');
    let n = names.len() as int;
    let last = names[n - 1];
    assert(0 < last.len() && last != seq!['.']);
    lemma_join_split(path, '/');
    lemma_pieces_hold_no_separator(path, '/');
    assert(!last.contains('/'));
    assert(last.contains(last[last.len() - 1]));
    if n == 1 {
        assert(path == last);
        if 2 <= path.len() {
            assert(last.contains(last[last.len() - 2]));
        }
    } else {
        assert(path.last() == last[last.len() - 1]);
        if 2 <= path.len() && path[path.len() - 1] == '.' && path[path.len() - 2] == '/' {
            if 1 < last.len() {
                assert(path[path.len() - 2] == last[last.len() - 2]);
                assert(last.contains(last[last.len() - 2]));
            } else {
                assert(last == seq!['.']);
            }
        }
        if path == seq!['.'] {
            assert(path.len() == 1);
        }
    }
}

proof fn lemma_run_finds(
    spec: BuiltinBuildSpec,
    build_dir: &str,
    files: &Vec<WalkedFile>,
    style: PathStyle,
    steps: Vec<ModuleStep>,
) -> (r: (Seq<Option<Seq<char>>>, Table<LuaModule, ModuleSpec>))
    requires
        call_ensures(
            BuiltinBuildSpec::run,
            (spec, build_dir, files, style),
            Ok::<Vec<ModuleStep>, ParseLuaModuleError>(steps),
        ),
    ensures
        are_relative(style, build_dir@, files@, r.0),
        are_detected(
            files@,
            r.0,
            search_of(
                style,
                build_dir@,
                all_sources(style, build_dir@, spec.modules.entries()),
            ),
            Ok::<Table<LuaModule, ModuleSpec>, ParseLuaModuleError>(r.1),
        ),
        are_steps(style, build_dir@, built_modules(r.1@, spec.modules@), steps@),
{
    let (diffs, found) = choose|
        diffs: Seq<Option<Seq<char>>>,
        found: Result<Table<LuaModule, ModuleSpec>, ParseLuaModuleError>,
    |
        #![trigger are_relative(style, build_dir@, files@, diffs), are_detected(
            files@,
            diffs,
            search_of(
                style,
                build_dir@,
                all_sources(style, build_dir@, spec.modules.entries()),
            ),
            found,
        )]
        {
            &&& are_relative(style, build_dir@, files@, diffs)
            &&& are_detected(
                files@,
                diffs,
                search_of(
                    style,
                    build_dir@,
                    all_sources(style, build_dir@, spec.modules.entries()),
                ),
                found,
            )
            &&& match found {
                Ok(found) => are_steps(
                    style,
                    build_dir@,
                    built_modules(found@, spec.modules@),
                    steps@,
                ),
                Err(_) => false,
            }
        };
    (diffs, found->Ok_0)
}

/// What is built besides the modules of the rockspec are Lua files in `src`, `lua` or `lib` of
/// the build directory that no module of the rockspec lists as a source.
pub proof fn only_lua_files_are_built_besides(
    spec: BuiltinBuildSpec,
    build_dir: &str,
    files: &Vec<WalkedFile>,
    style: PathStyle,
    steps: Vec<ModuleStep>,
    i: int,
    dirs: Vec<String>,
)
    requires
        call_ensures(
            BuiltinBuildSpec::run,
            (spec, build_dir, files, style),
            Ok::<Vec<ModuleStep>, ParseLuaModuleError>(steps),
        ),
        call_ensures(module_dirs, (build_dir, style), dirs),
        0 <= i < steps@.len(),
        !spec.modules@.contains_key(steps@[i].module@),
    ensures
        steps@[i].action is CopyLua || steps@[i].action is CompileFiles,
        exists|k: int, d: int|
            #![trigger files@[k], dirs@[d]]
            {
                &&& 0 <= k < files@.len()
                &&& 0 <= d < dirs@.len()
                &&& extension(files@[k].file_name@) == Some("lua"@)
                &&& is_below(style, dirs@[d]@, files@[k].path@)
                &&& forall|m: int, source: Seq<char>|
                    0 <= m < spec.modules.entries().len() && #[trigger] lists_source(
                        (#[trigger] spec.modules.entries()[m]).1,
                        source,
                    ) ==> !same_path(
                        style,
                        joined_in(style, build_dir@, source),
                        files@[k].path@,
                    )
            },
{
    let (diffs, table) = lemma_run_finds(spec, build_dir, files, style, steps);
    let name = steps@[i].module@;
    let entries = spec.modules.entries();
    let exclude = all_sources(style, build_dir@, entries);
    let search = search_of(style, build_dir@, exclude);
    assert(built_modules(table@, spec.modules@).contains_key(name));
    assert(table@.contains_key(name));
    let n = files@.len() as int;
    let pairs = detected(files@, diffs, search, n);
    let map = later_wins(pairs);
    assert(map.dom().contains(name));
    keys_are_those_of_the_pairs(pairs, name);
    let j = choose|j: int| 0 <= j < pairs.len() && (#[trigger] pairs[j]).0 == name;
    detected_modules_are_in_lua_files(files@, diffs, search, n);
    let k = choose|k: int|
        {
            &&& 0 <= k < n
            &&& is_detected(#[trigger] files@[k], search)
            &&& diffs[k] matches Some(diff)
            &&& pairs[j] == (detected_name(diff, files@[k].file_name@), diff)
        };
    assert(is_detected(files@[k], search));
    let d = choose|d: int|
        0 <= d < search.dirs.len() && is_below(style, #[trigger] search.dirs[d], files@[k].path@);
    assert(texts(dirs@) == search.dirs);
    assert(texts(dirs@)[d] == dirs@[d]@);
    assert forall|m: int, source: Seq<char>|
        0 <= m < entries.len() && #[trigger] lists_source((#[trigger] entries[m]).1, source) implies
        !same_path(style, joined_in(style, build_dir@, source), files@[k].path@) by {
        lemma_listed_is_joined(style, build_dir@, entries, m, source);
        let e = choose|e: int|
            0 <= e < exclude.len() && #[trigger] exclude[e] == joined_in(
                style,
                build_dir@,
                source,
            );
        assert(!same_path(style, exclude[e], files@[k].path@));
    }
    assert(table@[name] is SourcePath);
    assert(is_action(
        style,
        build_dir@,
        built_modules(table@, spec.modules@)[name],
        steps@[i].action,
    ));
}

/// A Lua file in `src`, `lua` or `lib` of the build directory is built as the module of its path
/// there, unless the rockspec lists it as a source.
pub proof fn lua_files_of_the_build_are_built(
    spec: BuiltinBuildSpec,
    build_dir: &str,
    files: &Vec<WalkedFile>,
    style: PathStyle,
    steps: Vec<ModuleStep>,
    i: int,
    dir: Seq<char>,
    path: Seq<char>,
    module: Seq<char>,
)
    requires
        call_ensures(
            BuiltinBuildSpec::run,
            (spec, build_dir, files, style),
            Ok::<Vec<ModuleStep>, ParseLuaModuleError>(steps),
        ),
        0 <= i < files@.len(),
        1 < build_dir@.len(),
        build_dir@[0] == '/',
        build_dir@.last() != '/',
        is_portable(build_dir@),
        is_portable(files@[i].path@),
        dir == "src"@ || dir == "lua"@ || dir == "lib"@,
        is_plain_module(module),
        is_path_of(path, module),
        forall|k: int|
            0 <= k < split(path, '/').len() ==> 0 < (#[trigger] split(path, '/')[k]).len(),
        files@[i].path@ == build_dir@ + seq!['/'] + (dir + seq!['/'] + (path + ".lua"@)),
        files@[i].file_name@ == split(path, '/').last() + ".lua"@,
        module.contains('.') && "init"@.is_suffix_of(module) ==> exists|outer: Seq<char>| #[trigger]
            is_plain_module(outer) && module == outer + ".init"@,
        forall|m: int, source: Seq<char>|
            0 <= m < spec.modules.entries().len() && #[trigger] lists_source(
                (#[trigger] spec.modules.entries()[m]).1,
                source,
            ) ==> !same_path(
                style,
                joined_in(style, build_dir@, source),
                files@[i].path@,
            ),
    ensures
        exists|k: int| 0 <= k < steps@.len() && (#[trigger] steps@[k]).module@ == module,
{
    let (diffs, table) = lemma_run_finds(spec, build_dir, files, style, steps);
    let entries = spec.modules.entries();
    let exclude = all_sources(style, build_dir@, entries);
    assert forall|k: int| 0 <= k < exclude.len() implies !same_path(
        style,
        #[trigger] exclude[k],
        files@[i].path@,
    ) by {
        lemma_sources_are_joined(style, build_dir@, entries, k);
        let (m, source) = choose|m: int, source: Seq<char>|
            0 <= m < entries.len() && #[trigger] lists_source((#[trigger] entries[m]).1, source)
                && exclude[k] == joined_in(style, build_dir@, source);
        assert(lists_source(entries[m].1, source));
    }
    lemma_lua_file_is_found(
        style,
        build_dir@,
        files@,
        diffs,
        exclude,
        table,
        i,
        dir,
        path,
        module,
    );
    assert(built_modules(table@, spec.modules@).contains_key(module));
}

/// From the build table of a rockspec to the compiler nothing of a C module is lost: its step has
/// the five lists that the table gives.
pub proof fn c_modules_of_the_table_reach_the_compiler(
    internal: BuildSpecInternal,
    defaults: BuildDefaults,
    spec: BuildSpec,
    builtin: BuiltinBuildSpec,
    build_dir: &str,
    files: &Vec<WalkedFile>,
    style: PathStyle,
    steps: Vec<ModuleStep>,
    name: Seq<char>,
)
    requires
        internal.build_type is None || internal.build_type == Some(BuildType::Builtin),
        internal.builtin_spec is Some,
        internal.builtin_spec->0@.contains_key(LuaTableKeyView::Text(name)),
        internal.builtin_spec->0@[LuaTableKeyView::Text(name)] is ModulePaths,
        call_ensures(
            BuildSpec::from_internal_spec,
            (internal, defaults),
            Ok::<BuildSpec, BuildSpecInternalError>(spec),
        ),
        spec.build_backend == Some(BuildBackendSpec::Builtin(builtin)),
        call_ensures(
            BuiltinBuildSpec::run,
            (builtin, build_dir, files, style),
            Ok::<Vec<ModuleStep>, ParseLuaModuleError>(steps),
        ),
    ensures
        exists|i: int| 0 <= i < steps@.len() && (#[trigger] steps@[i]).module@ == name,
        forall|i: int|
            0 <= i < steps@.len() && (#[trigger] steps@[i]).module@ == name ==> {
                let given = internal.builtin_spec->0@[LuaTableKeyView::Text(name)]->ModulePaths_0;
                let action = steps@[i].action;
                &&& action is CompileModule
                &&& action->CompileModule_0.sources == given.sources
                &&& action->CompileModule_0.libraries == given.libraries
                &&& action->CompileModule_0.defines == given.defines
                &&& action->CompileModule_0.incdirs == given.incdirs
                &&& action->CompileModule_0.libdirs == given.libdirs
            },
{
    builtin_modules_are_kept(internal, defaults, spec, name);
    rockspec_modules_are_built_as_given(builtin, build_dir, files, style, steps, name);
}

} // verus!
