//! What `build.install` of a rockspec says.

use crate::lua_value::LuaTableKey;
use crate::module_spec::{LuaModule, ParseLuaModuleError};
use crate::slash_path::{file_name, path_file_name, path_with_extension, with_extension};
use crate::table::{
    distinct_keys, keys_are_those_of_the_pairs, last_pair_counts, later_wins, text_map, Table,
};
use vstd::prelude::*;

verus! {

/// For packages which don't provide means to install modules
/// and expect the user to copy the .lua or library files by hand to the proper locations.
/// This struct contains categories of files. Each category is itself a table,
/// where the array part is a list of filenames to be copied.
/// For module directories only, in the hash part, other keys are identifiers in Lua module format,
/// to indicate which subdirectory the file should be copied to.
/// For example, build.install.lua = {["foo.bar"] = {"src/bar.lua"}} will copy src/bar.lua
/// to the foo directory under the rock's Lua files directory.
#[derive(Debug)]
pub struct InstallSpec {
    /// Lua modules written in Lua.
    pub lua: Table<LuaModule, String>,
    /// Dynamic libraries implemented compiled Lua modules.
    pub lib: Table<String, String>,
    /// Configuration files.
    pub conf: Table<String, String>,
    /// Lua command-line scripts.
    pub bin: Table<String, String>,
}

/// Nothing is to be installed.
pub open spec fn installs_nothing(install: InstallSpec) -> bool {
    &&& install.lua@ == Map::<Seq<char>, String>::empty()
    &&& install.lib@ == Map::<Seq<char>, String>::empty()
    &&& install.conf@ == Map::<Seq<char>, String>::empty()
    &&& install.bin@ == Map::<Seq<char>, String>::empty()
}

impl Default for InstallSpec {
    /// Nothing to install.
    fn default() -> (r: InstallSpec)
        ensures
            installs_nothing(r),
    {
        InstallSpec {
            lua: Table::new(),
            lib: Table::new(),
            conf: Table::new(),
            bin: Table::new(),
        }
    }
}

/// A value that stands for a path in a category of files.
#[derive(Debug)]
pub enum InstallValue {
    /// A path
    Text(String),
    /// A list of paths, and what is said of it where a path is expected
    List(Vec<String>, String),
    /// Another value: what is said of it where a path is expected
    Other(String),
}

/// The path that the value of the key stands for, if it does. In the hash part that is also a list
/// of one path.
pub open spec fn install_path_of(key: LuaTableKey, value: InstallValue) -> Option<String> {
    match value {
        InstallValue::Text(path) => Some(path),
        InstallValue::List(paths, _) => if key is StringKey && paths@.len() == 1 {
            Some(paths@[0])
        } else {
            None
        },
        InstallValue::Other(_) => None,
    }
}

/// What is said of the value where a path is expected.
pub open spec fn refusal_of(value: InstallValue) -> Seq<char> {
    match value {
        InstallValue::Text(_) => Seq::empty(),
        InstallValue::List(_, refusal) => refusal@,
        InstallValue::Other(refusal) => refusal@,
    }
}

/// The entries have the same keys and the paths that the values stand for.
pub open spec fn are_install_paths(
    values: Seq<(LuaTableKey, InstallValue)>,
    paths: Seq<(LuaTableKey, String)>,
) -> bool {
    &&& paths.len() == values.len()
    &&& forall|i: int|
        0 <= i < values.len() ==> (#[trigger] paths[i]).0 == values[i].0 && Some(paths[i].1)
            == install_path_of(values[i].0, values[i].1)
}

/// The path that the value of the key stands for.
fn install_path(key: &LuaTableKey, value: InstallValue) -> (r: Result<String, String>)
    ensures
        match r {
            Ok(path) => install_path_of(*key, value) == Some(path),
            Err(refusal) => install_path_of(*key, value) is None && refusal@ == refusal_of(value),
        },
{
    match value {
        InstallValue::Text(path) => Ok(path),
        InstallValue::List(paths, refusal) => match key {
            LuaTableKey::StringKey(_) if paths.len() == 1 => {
                let mut paths = paths;
                Ok(paths.remove(0))
            },
            _ => Err(refusal),
        },
        InstallValue::Other(refusal) => Err(refusal),
    }
}

/// The paths that the values of a category of files stand for. Of several values that stand for no
/// path, the error is that of the first one.
pub fn install_paths(values: Table<LuaTableKey, InstallValue>) -> (r: Result<
    Table<LuaTableKey, String>,
    String,
>)
    ensures
        match r {
            Ok(paths) => are_install_paths(values.entries(), paths.entries()),
            Err(refusal) => exists|i: int|
                0 <= i < values.entries().len() && install_path_of(
                    (#[trigger] values.entries()[i]).0,
                    values.entries()[i].1,
                ) is None && refusal@ == refusal_of(values.entries()[i].1) && forall|j: int|
                    0 <= j < i ==> install_path_of(
                        (#[trigger] values.entries()[j]).0,
                        values.entries()[j].1,
                    ) is Some,
        },
{
    let entries = values.into_entries();
    let ghost all = entries@;
    let mut paths: Vec<(LuaTableKey, String)> = Vec::new();
    for entry in it: entries
        invariant
            it.seq() == all,
            all == values.entries(),
            distinct_keys(all),
            are_install_paths(all.take(it.index()), paths@),
    {
        let ghost i = it.index();
        assert(all[i] == entry);
        match install_path(&entry.0, entry.1) {
            Ok(path) => {
                let ghost before = paths@;
                paths.push((entry.0, path));
                proof {
                    let done = all.take(i + 1);
                    assert forall|k: int| 0 <= k < done.len() implies (#[trigger] paths@[k]).0
                        == done[k].0 && Some(paths@[k].1) == install_path_of(
                        done[k].0,
                        done[k].1,
                    ) by {
                        if k < i {
                            assert(paths@[k] == before[k]);
                            assert(done[k] == all.take(i)[k]);
                        }
                    }
                }
            },
            Err(refusal) => {
                assert forall|j: int| 0 <= j < i implies install_path_of(
                    (#[trigger] all[j]).0,
                    all[j].1,
                ) is Some by {
                    assert(all.take(i)[j] == all[j]);
                    assert(paths@[j].0 == all[j].0);
                }
                return Err(refusal);
            },
        }
    }
    proof {
        assert(all.take(all.len() as int) == all);
        assert forall|i: int, j: int| 0 <= i < j < paths@.len() implies #[trigger] paths@[i].0@
            != #[trigger] paths@[j].0@ by {
            assert(paths@[i].0 == all[i].0);
            assert(paths@[j].0 == all[j].0);
            assert(all[i].0@ != all[j].0@);
        }
    }
    Ok(Table::from_entries(paths))
}

/// Paths to Lua modules, each with the name of the module or with a number.
#[derive(Debug)]
pub struct LuaPathBufTable(pub Table<LuaTableKey, String>);

/// Paths to files, each with a name or with a number.
#[derive(Debug)]
pub struct LibPathBufTable(pub Table<LuaTableKey, String>);

/// The file name of the path, or the empty text.
pub open spec fn file_name_or_empty(path: Seq<char>) -> Seq<char> {
    match file_name(path) {
        Some(name) => name,
        None => Seq::empty(),
    }
}

/// The module and its path. Without a name of its own the module has the file name of the path,
/// without the extension.
pub open spec fn module_entry(entry: (LuaTableKey, String)) -> (Seq<char>, Seq<char>) {
    match entry.0 {
        LuaTableKey::IntKey(_) => (
            file_name_or_empty(with_extension(entry.1@, Seq::empty())),
            entry.1@,
        ),
        LuaTableKey::StringKey(name) => (name@, entry.1@),
    }
}

/// The name and the path of a file. Without a name of its own the file has its file name.
pub open spec fn file_entry(entry: (LuaTableKey, String)) -> (Seq<char>, Seq<char>) {
    match entry.0 {
        LuaTableKey::IntKey(_) => (file_name_or_empty(entry.1@), entry.1@),
        LuaTableKey::StringKey(name) => (name@, entry.1@),
    }
}

/// The modules and their paths.
pub open spec fn module_entries(entries: Seq<(LuaTableKey, String)>) -> Seq<
    (Seq<char>, Seq<char>),
> {
    entries.map_values(|entry: (LuaTableKey, String)| module_entry(entry))
}

/// The names and the paths of the files.
pub open spec fn file_entries(entries: Seq<(LuaTableKey, String)>) -> Seq<
    (Seq<char>, Seq<char>),
> {
    entries.map_values(|entry: (LuaTableKey, String)| file_entry(entry))
}

/// The file name of the path, or the empty string.
fn unwrap_file_name(path: &str) -> (r: String)
    ensures
        r@ == file_name_or_empty(path@),
{
    match path_file_name(path) {
        Some(name) => name,
        None => String::new(),
    }
}

impl LuaPathBufTable {
    /// The modules and their paths, in which the later one of two modules with the same name
    /// counts. An empty module name is an error.
    pub fn coerce(self) -> (r: Result<Table<LuaModule, String>, ParseLuaModuleError>)
        ensures
            match r {
                Ok(table) => text_map(table@) == later_wins(module_entries(self.0.entries()))
                    && forall|i: int|
                    0 <= i < self.0.entries().len() ==> 0 < module_entry(
                        #[trigger] self.0.entries()[i],
                    ).0.len(),
                Err(err) => err matches ParseLuaModuleError::EmptyModule(text) && text@.len() == 0
                    && exists|i: int|
                    0 <= i < self.0.entries().len() && module_entry(
                        #[trigger] self.0.entries()[i],
                    ).0.len() == 0,
            },
    {
        let entries = self.0.into_entries();
        let ghost all = entries@;
        let ghost pairs = module_entries(all);
        let mut r: Table<LuaModule, String> = Table::new();
        assert(text_map(r@) == later_wins(pairs.take(0)));
        for entry in it: entries
            invariant
                it.seq() == all,
                all == self.0.entries(),
                pairs == module_entries(all),
                forall|i: int|
                    0 <= i < it.index() ==> 0 < module_entry(#[trigger] all[i]).0.len(),
                text_map(r@) == later_wins(pairs.take(it.index())),
        {
            let ghost i = it.index();
            let ghost before = r@;
            let path = entry.1;
            let name = match entry.0 {
                LuaTableKey::IntKey(_) => {
                    let empty = String::new();
                    assert(empty@ == Seq::<char>::empty());
                    let stem = path_with_extension(path.as_str(), empty.as_str());
                    unwrap_file_name(stem.as_str())
                },
                LuaTableKey::StringKey(name) => name,
            };
            proof {
                assert(all[i] == entry);
                assert(pairs.take(i + 1).drop_last() == pairs.take(i));
                assert(pairs[i] == (name@, path@));
            }
            match LuaModule::from_str(name.as_str()) {
                Ok(module) => {
                    r.insert(module, path);
                    assert(text_map(r@) == text_map(before).insert(name@, path@));
                },
                Err(err) => {
                    assert(module_entry(all[i]).0.len() == 0);
                    return Err(err);
                },
            }
        }
        assert(pairs.take(pairs.len() as int) == pairs);
        Ok(r)
    }
}

impl LibPathBufTable {
    /// The names and the paths of the files, in which the later one of two files with the same
    /// name counts.
    pub fn coerce(self) -> (r: Table<String, String>)
        ensures
            text_map(r@) == later_wins(file_entries(self.0.entries())),
    {
        let entries = self.0.into_entries();
        let ghost all = entries@;
        let ghost pairs = file_entries(all);
        let mut r: Table<String, String> = Table::new();
        assert(text_map(r@) == later_wins(pairs.take(0)));
        for entry in it: entries
            invariant
                it.seq() == all,
                pairs == file_entries(all),
                text_map(r@) == later_wins(pairs.take(it.index())),
        {
            let ghost i = it.index();
            let ghost before = r@;
            let path = entry.1;
            let name = match entry.0 {
                LuaTableKey::IntKey(_) => unwrap_file_name(path.as_str()),
                LuaTableKey::StringKey(name) => name,
            };
            proof {
                assert(all[i] == entry);
                assert(pairs.take(i + 1).drop_last() == pairs.take(i));
                assert(pairs[i] == (name@, path@));
            }
            r.insert(name, path);
            assert(text_map(r@) == text_map(before).insert(name@, path@));
        }
        assert(pairs.take(pairs.len() as int) == pairs);
        r
    }
}

/// The path that an entry of an install table installs: a text is the path, and so is the only
/// text of a list under a name.
pub open spec fn installs_path(entry: (LuaTableKey, InstallValue), path: String) -> bool {
    match entry.1 {
        InstallValue::Text(text) => path == text,
        InstallValue::List(paths, _) => entry.0 is StringKey && paths@.len() == 1 && path
            == paths@[0],
        InstallValue::Other(_) => false,
    }
}

/// The entry is one path: a text, or a list of one text under a name.
pub open spec fn is_one_path(entry: (LuaTableKey, InstallValue)) -> bool {
    ||| entry.1 is Text
    ||| entry.1 is List && entry.0 is StringKey && entry.1->List_0@.len() == 1
}

/// The entry is refused for the reason that it has.
pub open spec fn is_refused_with(entry: (LuaTableKey, InstallValue), reason: String) -> bool {
    &&& !is_one_path(entry)
    &&& entry.1 is List ==> entry.1->List_1@ == reason@
    &&& entry.1 is Other ==> entry.1->Other_0@ == reason@
}

/// Every entry of an install table keeps its key and its path. The table is refused exactly if
/// one of them is, and then for the reason of the first such entry.
pub proof fn install_entries_keep_their_paths(
    values: Table<LuaTableKey, InstallValue>,
    r: Result<Table<LuaTableKey, String>, String>,
)
    requires
        call_ensures(install_paths, (values,), r),
    ensures
        r is Ok ==> {
            &&& r->Ok_0.entries().len() == values.entries().len()
            &&& forall|i: int|
                0 <= i < values.entries().len() ==> (#[trigger] r->Ok_0.entries()[i]).0
                    == values.entries()[i].0 && installs_path(
                    values.entries()[i],
                    r->Ok_0.entries()[i].1,
                )
        },
        r is Err ==> exists|i: int|
            0 <= i < values.entries().len() && is_refused_with(
                #[trigger] values.entries()[i],
                r->Err_0,
            ) && forall|j: int| 0 <= j < i ==> is_one_path(#[trigger] values.entries()[j]),
{
    if r is Ok {
        let paths = r->Ok_0.entries();
        assert forall|i: int| 0 <= i < values.entries().len() implies (#[trigger] paths[i]).0
            == values.entries()[i].0 && installs_path(values.entries()[i], paths[i].1) by {
            assert(Some(paths[i].1) == install_path_of(
                values.entries()[i].0,
                values.entries()[i].1,
            ));
        }
    } else {
        let all = values.entries();
        let i = choose|i: int|
            0 <= i < all.len() && install_path_of((#[trigger] all[i]).0, all[i].1) is None
                && r->Err_0@ == refusal_of(all[i].1) && forall|j: int|
                0 <= j < i ==> install_path_of((#[trigger] all[j]).0, all[j].1) is Some;
        assert(is_refused_with(all[i], r->Err_0));
        assert forall|j: int| 0 <= j < i implies is_one_path(#[trigger] all[j]) by {
            assert(install_path_of(all[j].0, all[j].1) is Some);
        }
    }
}

/// A named entry is installed under its name, and its path is where it comes from. Of entries
/// with one name the last one counts. A listed library is named by its file.
pub proof fn libraries_keep_their_names(
    table: LibPathBufTable,
    r: Table<String, String>,
    i: int,
    path: &str,
    name: Option<String>,
)
    requires
        call_ensures(LibPathBufTable::coerce, (table,), r),
        0 <= i < table.0.entries().len(),
        path@ == table.0.entries()[i].1@,
        call_ensures(path_file_name, (path,), name),
        forall|j: int|
            i < j < table.0.entries().len() ==> file_entry(#[trigger] table.0.entries()[j]).0
                != file_entry(table.0.entries()[i]).0,
    ensures
        table.0.entries()[i].0 matches LuaTableKey::StringKey(key) ==> r@.contains_key(key@)
            && r@[key@]@ == path@,
        table.0.entries()[i].0 is IntKey && name is Some ==> r@.contains_key(name->0@)
            && r@[name->0@]@ == path@,
{
    let entries = table.0.entries();
    let pairs = file_entries(entries);
    assert forall|j: int| i < j < pairs.len() implies (#[trigger] pairs[j]).0 != pairs[i].0 by {
        assert(file_entry(entries[j]).0 != file_entry(entries[i]).0);
    }
    last_pair_counts(pairs, i);
    let key = pairs[i].0;
    assert(text_map(r@).contains_key(key));
    assert(text_map(r@)[key] == r@[key]@);
}

/// A named Lua file is installed as the module of that name, and its path is where it comes from.
/// Of entries with one name the last one counts. A listed file is named by its file without the
/// extension. The table is refused exactly if a name is empty.
pub proof fn lua_files_keep_their_names(
    table: LuaPathBufTable,
    r: Result<Table<LuaModule, String>, ParseLuaModuleError>,
    i: int,
    path: &str,
    none: &str,
    stem: String,
    stem_text: &str,
    name: Option<String>,
)
    requires
        call_ensures(LuaPathBufTable::coerce, (table,), r),
        0 <= i < table.0.entries().len(),
        path@ == table.0.entries()[i].1@,
        none@.len() == 0,
        call_ensures(path_with_extension, (path, none), stem),
        stem_text@ == stem@,
        call_ensures(path_file_name, (stem_text,), name),
    ensures
        table.0.entries()[i].0 matches LuaTableKey::StringKey(key) ==> (key@.len() == 0 ==> r
            is Err),
        table.0.entries()[i].0 is IntKey && name is None ==> r is Err,
        r is Err ==> r->Err_0 is EmptyModule,
        r is Ok && (forall|j: int|
            i < j < table.0.entries().len() ==> module_entry(#[trigger] table.0.entries()[j]).0
                != module_entry(table.0.entries()[i]).0) ==> {
            &&& table.0.entries()[i].0 matches LuaTableKey::StringKey(key) ==> r->Ok_0@.contains_key(
                key@,
            ) && r->Ok_0@[key@]@ == path@
            &&& table.0.entries()[i].0 is IntKey && name is Some ==> r->Ok_0@.contains_key(
                name->0@,
            ) && r->Ok_0@[name->0@]@ == path@
        },
{
    let entries = table.0.entries();
    let pairs = module_entries(entries);
    assert(none@ == Seq::<char>::empty());
    if r is Ok {
        assert(0 < module_entry(entries[i]).0.len());
        if forall|j: int|
            i < j < entries.len() ==> module_entry(#[trigger] entries[j]).0 != module_entry(
                entries[i],
            ).0 {
            assert forall|j: int| i < j < pairs.len() implies (#[trigger] pairs[j]).0
                != pairs[i].0 by {
                assert(module_entry(entries[j]).0 != module_entry(entries[i]).0);
            }
            last_pair_counts(pairs, i);
            let key = pairs[i].0;
            assert(text_map(r->Ok_0@).contains_key(key));
            assert(text_map(r->Ok_0@)[key] == r->Ok_0@[key]@);
        }
    }
}

/// Coercing adds no name: each is the key or the file name of an entry, and no table with names
/// for all its entries is refused.
pub proof fn coerced_names_are_those_of_the_entries(
    libs: LibPathBufTable,
    r: Table<String, String>,
    table: LuaPathBufTable,
    modules: Result<Table<LuaModule, String>, ParseLuaModuleError>,
    name: Seq<char>,
)
    requires
        call_ensures(LibPathBufTable::coerce, (libs,), r),
        call_ensures(LuaPathBufTable::coerce, (table,), modules),
    ensures
        r@.contains_key(name) ==> exists|i: int|
            0 <= i < libs.0.entries().len() && match (#[trigger] libs.0.entries()[i]).0 {
                LuaTableKey::StringKey(key) => key@ == name,
                LuaTableKey::IntKey(_) => file_name(libs.0.entries()[i].1@) == Some(name)
                    || name.len() == 0,
            },
        modules is Ok && modules->Ok_0@.contains_key(name) ==> 0 < name.len() && exists|i: int|
            0 <= i < table.0.entries().len() && match (#[trigger] table.0.entries()[i]).0 {
                LuaTableKey::StringKey(key) => key@ == name,
                LuaTableKey::IntKey(_) => file_name(
                    with_extension(table.0.entries()[i].1@, Seq::empty()),
                ) == Some(name),
            },
{
    if r@.contains_key(name) {
        let pairs = file_entries(libs.0.entries());
        assert(text_map(r@).contains_key(name));
        keys_are_those_of_the_pairs(pairs, name);
        let i = choose|i: int| 0 <= i < pairs.len() && (#[trigger] pairs[i]).0 == name;
        assert(pairs[i] == file_entry(libs.0.entries()[i]));
    }
    if modules is Ok && modules->Ok_0@.contains_key(name) {
        let pairs = module_entries(table.0.entries());
        assert(text_map(modules->Ok_0@).contains_key(name));
        keys_are_those_of_the_pairs(pairs, name);
        let i = choose|i: int| 0 <= i < pairs.len() && (#[trigger] pairs[i]).0 == name;
        assert(pairs[i] == module_entry(table.0.entries()[i]));
        assert(0 < module_entry(table.0.entries()[i]).0.len());
    }
}

/// Nothing is installed where nothing is said.
pub proof fn nothing_is_installed_by_default(r: InstallSpec, name: Seq<char>)
    requires
        call_ensures(<InstallSpec as Default>::default, (), r),
    ensures
        !r.lua@.contains_key(name),
        !r.lib@.contains_key(name),
        !r.conf@.contains_key(name),
        !r.bin@.contains_key(name),
{
}

} // verus!
