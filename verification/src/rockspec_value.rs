//! The tables and lists of a rockspec, as they are read and displayed.

use crate::lua_value::{shows_text, DisplayLuaKV, DisplayLuaValue, LuaTableKey, LuaTableKeyView};
use crate::module_spec::{shows_module, ModuleSpecInternal};
use crate::slash_path::{is_slash_text, to_slash_lossy, PathKey};
use crate::table::{keys_are_those_of_the_pairs, last_pair_counts, later_wins, Table};
use crate::text::{concat, copy, has_text, texts};
use vstd::prelude::*;

verus! {

/// The key of a map, as it is read.
#[derive(Debug)]
pub enum MapKey {
    Signed(i64),
    Unsigned(u64),
    Text(String),
    /// A key of another kind, as debug output shows it
    Other(String),
}

/// A value that may be a map or a list, as it is read, in which each element is what was asked
/// for or the reason why it is not.
#[derive(Debug)]
pub enum MapOrSeq<V> {
    Entries(Vec<(MapKey, Result<V, String>)>),
    Elements(Vec<Result<V, String>>),
    Nil,
    /// A value of another kind, as debug output shows it
    Other(String),
}

/// What is wrong with an entry of a map: its key is no number and no text, or else its value is
/// not what was asked for.
pub open spec fn entry_error<V>(entry: (MapKey, Result<V, String>)) -> Option<Seq<char>> {
    match entry {
        (MapKey::Other(shown), _) => Some("unexpected map key: "@ + shown@),
        (_, Err(message)) => Some(message@),
        _ => None,
    }
}

/// What is wrong with an element of a list.
pub open spec fn element_error<V>(element: Result<V, String>) -> Option<Seq<char>> {
    match element {
        Err(message) => Some(message@),
        Ok(_) => None,
    }
}

/// The key of the Lua table. A signed number counts modulo the range of the key.
pub open spec fn key_view(key: MapKey) -> LuaTableKeyView {
    match key {
        MapKey::Signed(i) => LuaTableKeyView::Int(#[verifier::truncate] (i as u64)),
        MapKey::Unsigned(i) => LuaTableKeyView::Int(i),
        MapKey::Text(text) => LuaTableKeyView::Text(text@),
        MapKey::Other(shown) => LuaTableKeyView::Text(shown@),
    }
}

/// The entries of the Lua table that a map makes.
pub open spec fn map_pairs<V>(entries: Seq<(MapKey, Result<V, String>)>) -> Seq<
    (LuaTableKeyView, V),
> {
    entries.map_values(|entry: (MapKey, Result<V, String>)| (key_view(entry.0), entry.1->Ok_0))
}

/// The Lua table that a list makes: its elements have the keys from 1 on.
pub open spec fn list_map<V>(elements: Seq<Result<V, String>>) -> Map<LuaTableKeyView, V> {
    Map::new(
        |k: LuaTableKeyView| k matches LuaTableKeyView::Int(i) && 1 <= i <= elements.len(),
        |k: LuaTableKeyView| elements[k->Int_0 - 1]->Ok_0,
    )
}

/// The message is what is wrong with the first entry that has a fault.
pub open spec fn is_first_entry_error<V>(
    entries: Seq<(MapKey, Result<V, String>)>,
    message: Seq<char>,
) -> bool {
    exists|i: int|
        0 <= i < entries.len() && entry_error(#[trigger] entries[i]) == Some(message) && forall|
            j: int,
        |
            0 <= j < i ==> entry_error(#[trigger] entries[j]) is None
}

/// The message is what is wrong with the first element that has a fault.
pub open spec fn is_first_element_error<V>(
    elements: Seq<Result<V, String>>,
    message: Seq<char>,
) -> bool {
    exists|i: int|
        0 <= i < elements.len() && element_error(#[trigger] elements[i]) == Some(message)
            && forall|j: int| 0 <= j < i ==> element_error(#[trigger] elements[j]) is None
}

/// The Lua table that a map makes.
fn table_of_map<V>(entries: Vec<(MapKey, Result<V, String>)>) -> (r: Result<
    Table<LuaTableKey, V>,
    String,
>)
    ensures
        match r {
            Ok(table) => table@ == later_wins(map_pairs(entries@)) && forall|i: int|
                0 <= i < entries@.len() ==> entry_error(#[trigger] entries@[i]) is None,
            Err(message) => is_first_entry_error(entries@, message@),
        },
{
    let mut r: Table<LuaTableKey, V> = Table::new();
    let ghost all = entries@;
    let ghost pairs = map_pairs(all);
    for entry in it: entries
        invariant
            it.seq() == all,
            all == entries@,
            pairs == map_pairs(all),
            r@ == later_wins(pairs.take(it.index())),
            forall|i: int| 0 <= i < it.index() ==> entry_error(#[trigger] all[i]) is None,
    {
        let ghost i = it.index();
        proof {
            assert(all[i] == entry);
            assert(pairs.take(i + 1).drop_last() == pairs.take(i));
        }
        let key = match entry.0 {
            MapKey::Signed(i) => LuaTableKey::IntKey(
                #[verifier::truncate]
                (i as u64),
            ),
            MapKey::Unsigned(i) => LuaTableKey::IntKey(i),
            MapKey::Text(text) => LuaTableKey::StringKey(text),
            MapKey::Other(shown) => {
                let message = concat("unexpected map key: ", shown.as_str());
                assert(entry_error(all[i]) == Some(message@));
                return Err(message);
            },
        };
        match entry.1 {
            Ok(value) => {
                assert(pairs[i] == (key@, value));
                r.insert(key, value);
            },
            Err(message) => {
                assert(entry_error(all[i]) == Some(message@));
                return Err(message);
            },
        }
    }
    assert(pairs.take(pairs.len() as int) == pairs);
    Ok(r)
}

/// The Lua table that a list makes.
fn table_of_list<V>(elements: Vec<Result<V, String>>) -> (r: Result<Table<LuaTableKey, V>, String>)
    ensures
        match r {
            Ok(table) => table@ == list_map(elements@) && forall|i: int|
                0 <= i < elements@.len() ==> element_error(#[trigger] elements@[i]) is None,
            Err(message) => is_first_element_error(elements@, message@),
        },
{
    let mut r: Table<LuaTableKey, V> = Table::new();
    let ghost all = elements@;
    let len: usize = elements.len();
    let mut done: usize = 0;
    assert(r@ == list_map(all.take(0)));
    for element in it: elements
        invariant
            it.seq() == all,
            all == elements@,
            len == all.len(),
            done == it.index(),
            r@ == list_map(all.take(it.index())),
            forall|i: int| 0 <= i < it.index() ==> element_error(#[trigger] all[i]) is None,
    {
        let ghost i = it.index();
        let ghost before = r@;
        assert(all[i] == element);
        match element {
            Ok(value) => {
                r.insert(LuaTableKey::IntKey(done as u64 + 1), value);
                assert(r@ == list_map(all.take(i + 1)));
            },
            Err(message) => {
                assert(element_error(all[i]) == Some(message@));
                return Err(message);
            },
        }
        done = done + 1;
    }
    assert(all.take(all.len() as int) == all);
    Ok(r)
}

/// The Lua table that a map or a list makes, or none where there is nothing.
pub fn deserialize_map_or_seq<V>(value: MapOrSeq<V>) -> (r: Result<
    Option<Table<LuaTableKey, V>>,
    String,
>)
    ensures
        match (value, r) {
            (MapOrSeq::Entries(entries), Ok(Some(table))) => table@ == later_wins(map_pairs(entries@))
                && forall|i: int|
                0 <= i < entries@.len() ==> entry_error(#[trigger] entries@[i]) is None,
            (MapOrSeq::Entries(entries), Err(message)) => is_first_entry_error(entries@, message@),
            (MapOrSeq::Elements(elements), Ok(Some(table))) => table@ == list_map(elements@)
                && forall|i: int|
                0 <= i < elements@.len() ==> element_error(#[trigger] elements@[i]) is None,
            (MapOrSeq::Elements(elements), Err(message)) => is_first_element_error(
                elements@,
                message@,
            ),
            (MapOrSeq::Nil, Ok(None)) => true,
            (MapOrSeq::Other(shown), Err(message)) => message@ == "expected a table or nil, got "@
                + shown@,
            _ => false,
        },
{
    match value {
        MapOrSeq::Entries(entries) => match table_of_map(entries) {
            Ok(table) => Ok(Some(table)),
            Err(message) => Err(message),
        },
        MapOrSeq::Elements(elements) => match table_of_list(elements) {
            Ok(table) => Ok(Some(table)),
            Err(message) => Err(message),
        },
        MapOrSeq::Nil => Ok(None),
        MapOrSeq::Other(shown) => Err(concat("expected a table or nil, got ", shown.as_str())),
    }
}

/// The list of directories contains `dir`.
pub open spec fn lists(directories: Option<Vec<String>>, dir: Seq<char>) -> bool {
    directories matches Some(all) && texts(all@).contains(dir)
}

/// The directory that clashes with the layout of a rock, if the list contains one.
pub open spec fn clashing_directory(directories: Option<Vec<String>>) -> Option<Seq<char>> {
    if lists(directories, "lua"@) {
        Some("lua"@)
    } else if lists(directories, "lib"@) {
        Some("lib"@)
    } else if lists(directories, "rock_manifest"@) {
        Some("rock_manifest"@)
    } else {
        None
    }
}

/// Whether the list of directories contains `dir`.
fn has_directory(directories: &Option<Vec<String>>, dir: &str) -> (r: bool)
    ensures
        r == lists(*directories, dir@),
{
    match directories {
        Some(all) => has_text(all, dir),
        None => false,
    }
}

/// Why the directory cannot be copied.
fn clash_message(dir: &str) -> (r: String)
    ensures
        r@ == "directory '"@ + dir@ + "' in copy_directories clashes with the .rock format"@,
{
    concat(
        concat("directory '", dir).as_str(),
        "' in copy_directories clashes with the .rock format",
    )
}

/// The directories to copy, unless one of them has a name that the layout of a rock takes.
pub fn deserialize_copy_directories(directories: Option<Vec<String>>) -> (r: Result<
    Option<Vec<String>>,
    String,
>)
    ensures
        match (clashing_directory(directories), r) {
            (None, Ok(all)) => all == directories,
            (Some(dir), Err(message)) => message@ == "directory '"@ + dir
                + "' in copy_directories clashes with the .rock format"@,
            _ => false,
        },
{
    if has_directory(&directories, "lua") {
        Err(clash_message("lua"))
    } else if has_directory(&directories, "lib") {
        Err(clash_message("lib"))
    } else if has_directory(&directories, "rock_manifest") {
        Err(clash_message("rock_manifest"))
    } else {
        Ok(directories)
    }
}

/// The entry shows a module under its name.
pub open spec fn shows_builtin_entry(
    kv: DisplayLuaKV,
    entry: (LuaTableKey, ModuleSpecInternal),
) -> bool {
    &&& entry.0 matches LuaTableKey::StringKey(name)
    &&& kv.key@ == name@
    &&& shows_module(kv.value, entry.1)
}

/// The entry shows a text under a path with slashes.
pub open spec fn shows_path_text(kv: DisplayLuaKV, entry: (PathKey, String)) -> bool {
    is_slash_text(entry.0.text@, kv.key@) && shows_text(kv.value, entry.1@)
}

/// The entry shows a path with slashes under a name.
pub open spec fn shows_named_path(kv: DisplayLuaKV, entry: (LuaTableKey, String)) -> bool {
    &&& entry.0 matches LuaTableKey::StringKey(name)
    &&& kv.key@ == name@
    &&& kv.value matches DisplayLuaValue::String(text)
    &&& is_slash_text(entry.1@, text@)
}

/// The modules as a Lua table, in table order.
pub fn display_builtin_spec(spec: &Table<LuaTableKey, ModuleSpecInternal>) -> (r: DisplayLuaValue)
    requires
        forall|i: int| 0 <= i < spec.entries().len() ==> (#[trigger] spec.entries()[i]).0
            is StringKey,
    ensures
        r matches DisplayLuaValue::Table(all) && all@.len() == spec.entries().len() && forall|i: int|
            0 <= i < all@.len() ==> shows_builtin_entry(#[trigger] all@[i], spec.entries()[i]),
{
    let mut all: Vec<DisplayLuaKV> = Vec::new();
    let ghost entries = spec.entries();
    let mut i: usize = 0;
    while i < spec.len()
        invariant
            i <= entries.len(),
            entries == spec.entries(),
            forall|k: int| 0 <= k < entries.len() ==> (#[trigger] entries[k]).0 is StringKey,
            all@.len() == i,
            forall|k: int| 0 <= k < i ==> shows_builtin_entry(#[trigger] all@[k], entries[k]),
        decreases entries.len() - i,
    {
        let entry = spec.entry(i);
        if let LuaTableKey::StringKey(name) = &entry.0 {
            all.push(
                DisplayLuaKV { key: copy(name.as_str()), value: entry.1.display_lua_value() },
            );
        }
        i = i + 1;
    }
    DisplayLuaValue::Table(all)
}

/// The paths and their texts as a Lua table, in table order.
pub fn display_path_string_map(map: &Table<PathKey, String>) -> (r: DisplayLuaValue)
    ensures
        r matches DisplayLuaValue::Table(all) && all@.len() == map.entries().len() && forall|i: int|
            0 <= i < all@.len() ==> shows_path_text(#[trigger] all@[i], map.entries()[i]),
{
    let mut all: Vec<DisplayLuaKV> = Vec::new();
    let mut i: usize = 0;
    while i < map.len()
        invariant
            i <= map.entries().len(),
            all@.len() == i,
            forall|k: int| 0 <= k < i ==> shows_path_text(#[trigger] all@[k], map.entries()[k]),
        decreases map.entries().len() - i,
    {
        let entry = map.entry(i);
        all.push(
            DisplayLuaKV {
                key: to_slash_lossy(entry.0.text.as_str()),
                value: DisplayLuaValue::String(copy(entry.1.as_str())),
            },
        );
        i = i + 1;
    }
    DisplayLuaValue::Table(all)
}

/// The names and their paths as a Lua table, in table order.
pub fn display_include(paths: &Table<LuaTableKey, String>) -> (r: DisplayLuaValue)
    requires
        forall|i: int| 0 <= i < paths.entries().len() ==> (#[trigger] paths.entries()[i]).0
            is StringKey,
    ensures
        r matches DisplayLuaValue::Table(all) && all@.len() == paths.entries().len() && forall|
            i: int,
        |
            0 <= i < all@.len() ==> shows_named_path(#[trigger] all@[i], paths.entries()[i]),
{
    let mut all: Vec<DisplayLuaKV> = Vec::new();
    let ghost entries = paths.entries();
    let mut i: usize = 0;
    while i < paths.len()
        invariant
            i <= entries.len(),
            entries == paths.entries(),
            forall|k: int| 0 <= k < entries.len() ==> (#[trigger] entries[k]).0 is StringKey,
            all@.len() == i,
            forall|k: int| 0 <= k < i ==> shows_named_path(#[trigger] all@[k], entries[k]),
        decreases entries.len() - i,
    {
        let entry = paths.entry(i);
        if let LuaTableKey::StringKey(name) = &entry.0 {
            all.push(
                DisplayLuaKV {
                    key: copy(name.as_str()),
                    value: DisplayLuaValue::String(to_slash_lossy(entry.1.as_str())),
                },
            );
        }
        i = i + 1;
    }
    DisplayLuaValue::Table(all)
}

/// The key of a table under which an entry of a map is kept: a text as it is, and a number as its
/// bits.
pub open spec fn is_kept_under(key: MapKey, kept: LuaTableKeyView) -> bool {
    match key {
        MapKey::Text(text) => kept == LuaTableKeyView::Text(text@),
        MapKey::Unsigned(i) => kept == LuaTableKeyView::Int(i),
        MapKey::Signed(i) => kept is Int && (0 <= i ==> kept->Int_0 == i) && (i < 0
            ==> kept->Int_0 == i + 0x1_0000_0000_0000_0000),
        MapKey::Other(_) => false,
    }
}

proof fn lemma_kept_under(key: MapKey)
    requires
        !(key is Other),
    ensures
        is_kept_under(key, key_view(key)),
{
    if let MapKey::Signed(i) = key {
        let bits: u64 = #[verifier::truncate] (i as u64);
        assert(0 <= i ==> bits == i) by (bit_vector)
            requires
                bits == i as u64,
        ;
        assert(i < 0 ==> bits == i + 0x1_0000_0000_0000_0000) by (bit_vector)
            requires
                bits == i as u64,
        ;
    }
}

/// A map is read as a table with each of its entries, and of entries with one key the last one
/// counts; nothing else is in the table. It is refused exactly if a key is none of a table or a
/// value could not be read.
pub proof fn map_entries_are_kept<V>(
    entries: Vec<(MapKey, Result<V, String>)>,
    r: Result<Option<Table<LuaTableKey, V>>, String>,
    i: int,
    key: LuaTableKeyView,
)
    requires
        call_ensures(deserialize_map_or_seq::<V>, (MapOrSeq::Entries(entries),), r),
    ensures
        r is Ok <==> forall|k: int|
            0 <= k < entries@.len() ==> !((#[trigger] entries@[k]).0 is Other) && entries@[k].1
                is Ok,
        r is Ok ==> r->Ok_0 is Some,
        r is Ok && 0 <= i < entries@.len() && is_kept_under(entries@[i].0, key) && (forall|j: int|
            i < j < entries@.len() ==> !is_kept_under((#[trigger] entries@[j]).0, key))
            ==> r->Ok_0->0@.contains_key(key) && r->Ok_0->0@[key] == entries@[i].1->Ok_0,
        r is Ok && r->Ok_0->0@.contains_key(key) ==> exists|k: int|
            0 <= k < entries@.len() && is_kept_under((#[trigger] entries@[k]).0, key),
{
    let pairs = map_pairs(entries@);
    if r is Ok {
        let table = r->Ok_0->0;
        assert forall|k: int| 0 <= k < entries@.len() implies !((#[trigger] entries@[k]).0 is Other)
            && entries@[k].1 is Ok && pairs[k].0 == key_view(entries@[k].0) && is_kept_under(
            entries@[k].0,
            pairs[k].0,
        ) by {
            assert(entry_error(entries@[k]) is None);
            lemma_kept_under(entries@[k].0);
        }
        if 0 <= i < entries@.len() && is_kept_under(entries@[i].0, key) && (forall|j: int|
            i < j < entries@.len() ==> !is_kept_under((#[trigger] entries@[j]).0, key)) {
            assert(!(entries@[i].0 is Other));
            assert(key == pairs[i].0);
            assert forall|j: int| i < j < pairs.len() implies (#[trigger] pairs[j]).0
                != pairs[i].0 by {
                assert(is_kept_under(entries@[j].0, pairs[j].0));
            }
            last_pair_counts(pairs, i);
        }
        if table@.contains_key(key) {
            keys_are_those_of_the_pairs(pairs, key);
            let k = choose|k: int| 0 <= k < pairs.len() && (#[trigger] pairs[k]).0 == key;
            assert(is_kept_under(entries@[k].0, key));
        }
    } else {
        let message = r->Err_0@;
        assert(is_first_entry_error(entries@, message));
        let k = choose|k: int|
            0 <= k < entries@.len() && entry_error(#[trigger] entries@[k]) == Some(message)
                && forall|j: int| 0 <= j < k ==> entry_error(#[trigger] entries@[j]) is None;
        assert(entries@[k].0 is Other || entries@[k].1 is Err);
    }
}

/// A list is read as a table with its elements under their positions, from one on, and nothing
/// else. It is refused exactly if an element could not be read. Nothing is read as no table, and
/// any other value is refused.
pub proof fn list_elements_are_kept<V>(
    elements: Vec<Result<V, String>>,
    r: Result<Option<Table<LuaTableKey, V>>, String>,
    nil: Result<Option<Table<LuaTableKey, V>>, String>,
    shown: String,
    other: Result<Option<Table<LuaTableKey, V>>, String>,
    n: u64,
    name: Seq<char>,
)
    requires
        call_ensures(deserialize_map_or_seq::<V>, (MapOrSeq::Elements(elements),), r),
        call_ensures(deserialize_map_or_seq::<V>, (MapOrSeq::Nil,), nil),
        call_ensures(deserialize_map_or_seq::<V>, (MapOrSeq::Other(shown),), other),
    ensures
        r is Ok <==> forall|k: int| 0 <= k < elements@.len() ==> #[trigger] elements@[k] is Ok,
        r is Ok ==> r->Ok_0 is Some,
        r is Ok ==> (r->Ok_0->0@.contains_key(LuaTableKeyView::Int(n)) <==> 1 <= n
            <= elements@.len()),
        r is Ok && 1 <= n <= elements@.len() ==> r->Ok_0->0@[LuaTableKeyView::Int(n)]
            == elements@[n - 1]->Ok_0,
        r is Ok ==> !r->Ok_0->0@.contains_key(LuaTableKeyView::Text(name)),
        nil is Ok,
        nil->Ok_0 is None,
        other is Err,
        other->Err_0@ == "expected a table or nil, got "@ + shown@,
{
    if r is Ok {
        assert forall|k: int| 0 <= k < elements@.len() implies #[trigger] elements@[k] is Ok by {
            assert(element_error(elements@[k]) is None);
        }
    } else {
        let message = r->Err_0@;
        assert(is_first_element_error(elements@, message));
        let k = choose|k: int|
            0 <= k < elements@.len() && element_error(#[trigger] elements@[k]) == Some(message)
                && forall|j: int| 0 <= j < k ==> element_error(#[trigger] elements@[j]) is None;
        assert(elements@[k] is Err);
    }
}

/// The first entry or element that cannot be read is the one that is reported.
pub proof fn first_unreadable_value_is_reported<V>(
    entries: Vec<(MapKey, Result<V, String>)>,
    elements: Vec<Result<V, String>>,
    a: Result<Option<Table<LuaTableKey, V>>, String>,
    b: Result<Option<Table<LuaTableKey, V>>, String>,
    i: int,
)
    requires
        call_ensures(deserialize_map_or_seq::<V>, (MapOrSeq::Entries(entries),), a),
        call_ensures(deserialize_map_or_seq::<V>, (MapOrSeq::Elements(elements),), b),
    ensures
        0 <= i < entries@.len() && (forall|j: int|
            0 <= j < i ==> !((#[trigger] entries@[j]).0 is Other) && entries@[j].1 is Ok) ==> {
            &&& entries@[i].0 is Other ==> a is Err && a->Err_0@ == "unexpected map key: "@
                + entries@[i].0->Other_0@
            &&& !(entries@[i].0 is Other) && entries@[i].1 is Err ==> a is Err && a->Err_0@
                == entries@[i].1->Err_0@
        },
        0 <= i < elements@.len() && elements@[i] is Err && (forall|j: int|
            0 <= j < i ==> #[trigger] elements@[j] is Ok) ==> b is Err && b->Err_0@
            == elements@[i]->Err_0@,
{
    if 0 <= i < entries@.len() && (forall|j: int|
        0 <= j < i ==> !((#[trigger] entries@[j]).0 is Other) && entries@[j].1 is Ok) && (
    entries@[i].0 is Other || entries@[i].1 is Err) {
        assert(entry_error(entries@[i]) is Some);
        if a is Err {
            let message = a->Err_0@;
            assert(is_first_entry_error(entries@, message));
            let k = choose|k: int|
                0 <= k < entries@.len() && entry_error(#[trigger] entries@[k]) == Some(message)
                    && forall|j: int| 0 <= j < k ==> entry_error(#[trigger] entries@[j]) is None;
            assert(entry_error(entries@[k]) is Some);
            if k < i {
                assert(!(entries@[k].0 is Other) && entries@[k].1 is Ok);
            }
        }
    }
    if 0 <= i < elements@.len() && elements@[i] is Err && (forall|j: int|
        0 <= j < i ==> #[trigger] elements@[j] is Ok) {
        assert(element_error(elements@[i]) is Some);
        if b is Err {
            let message = b->Err_0@;
            assert(is_first_element_error(elements@, message));
            let k = choose|k: int|
                0 <= k < elements@.len() && element_error(#[trigger] elements@[k]) == Some(message)
                    && forall|j: int| 0 <= j < k ==> element_error(#[trigger] elements@[j]) is None;
            assert(element_error(elements@[k]) is Some);
            if k < i {
                assert(elements@[k] is Ok);
            }
        }
    }
}

/// The directories to copy stay as they are, and are refused exactly if `lua`, `lib` or
/// `rock_manifest` is among them; the one that clashes is named, `lua` before the others.
pub proof fn directories_of_a_rock_are_refused(
    directories: Option<Vec<String>>,
    r: Result<Option<Vec<String>>, String>,
)
    requires
        call_ensures(deserialize_copy_directories, (directories,), r),
    ensures
        r is Ok ==> r->Ok_0 == directories,
        r is Err <==> directories is Some && exists|i: int|
            0 <= i < directories->0@.len() && ((#[trigger] directories->0@[i])@ == "lua"@
                || directories->0@[i]@ == "lib"@ || directories->0@[i]@ == "rock_manifest"@),
        r is Err ==> exists|i: int|
            {
                let dir = (#[trigger] directories->0@[i])@;
                &&& 0 <= i < directories->0@.len()
                &&& dir == "lua"@ || dir == "lib"@ || dir == "rock_manifest"@
                &&& r->Err_0@ == "directory '"@ + dir
                    + "' in copy_directories clashes with the .rock format"@
                &&& dir == "lua"@ || forall|j: int|
                    0 <= j < directories->0@.len() ==> (#[trigger] directories->0@[j])@ != "lua"@
            },
{
    reveal_strlit("lua");
    reveal_strlit("lib");
    reveal_strlit("rock_manifest");
    assert("lua"@[1] == 'u' && "lib"@[1] == 'i' && "rock_manifest"@[1] == 'o');
    if directories is Some {
        let all = directories->0@;
        assert forall|i: int| 0 <= i < all.len() implies texts(all)[i] == (#[trigger] all[i])@ by {}
        if exists|i: int|
            0 <= i < all.len() && ((#[trigger] all[i])@ == "lua"@ || all[i]@ == "lib"@ || all[i]@
                == "rock_manifest"@) {
            let i = choose|i: int|
                0 <= i < all.len() && ((#[trigger] all[i])@ == "lua"@ || all[i]@ == "lib"@
                    || all[i]@ == "rock_manifest"@);
            assert(texts(all)[i] == all[i]@);
            assert(texts(all).contains(all[i]@));
        }
        if r is Err {
            let dir = clashing_directory(directories)->0;
            assert(texts(all).contains(dir));
            let i = choose|i: int| 0 <= i < texts(all).len() && texts(all)[i] == dir;
            assert(all[i]@ == dir);
            if dir != "lua"@ {
                assert forall|j: int| 0 <= j < all.len() implies (#[trigger] all[j])@ != "lua"@ by {
                    assert(texts(all)[j] == all[j]@);
                    if all[j]@ == "lua"@ {
                        assert(texts(all).contains("lua"@));
                    }
                }
            }
        }
    }
}

/// Every module, path and copied path of a table is displayed, under its key and in its order,
/// and nothing else is.
pub proof fn every_entry_is_displayed(
    spec: &Table<LuaTableKey, ModuleSpecInternal>,
    modules: DisplayLuaValue,
    map: &Table<PathKey, String>,
    paths: DisplayLuaValue,
    copied: &Table<LuaTableKey, String>,
    copies: DisplayLuaValue,
    i: int,
)
    requires
        forall|k: int| 0 <= k < spec.entries().len() ==> (#[trigger] spec.entries()[k]).0
            is StringKey,
        forall|k: int| 0 <= k < copied.entries().len() ==> (#[trigger] copied.entries()[k]).0
            is StringKey,
        call_ensures(display_builtin_spec, (spec,), modules),
        call_ensures(display_path_string_map, (map,), paths),
        call_ensures(display_include, (copied,), copies),
    ensures
        modules is Table,
        modules->Table_0@.len() == spec.entries().len(),
        0 <= i < spec.entries().len() ==> modules->Table_0@[i].key@
            == spec.entries()[i].0->StringKey_0@ && shows_module(
            modules->Table_0@[i].value,
            spec.entries()[i].1,
        ),
        0 <= i < spec.entries().len() && spec.entries()[i].1 is SourcePath
            ==> modules->Table_0@[i].value is String && modules->Table_0@[i].value->String_0@
            == spec.entries()[i].1->SourcePath_0@,
        paths is Table,
        paths->Table_0@.len() == map.entries().len(),
        0 <= i < map.entries().len() ==> is_slash_text(
            map.entries()[i].0.text@,
            paths->Table_0@[i].key@,
        ) && paths->Table_0@[i].value is String && paths->Table_0@[i].value->String_0@
            == map.entries()[i].1@,
        copies is Table,
        copies->Table_0@.len() == copied.entries().len(),
        0 <= i < copied.entries().len() ==> copies->Table_0@[i].key@
            == copied.entries()[i].0->StringKey_0@ && copies->Table_0@[i].value is String
            && is_slash_text(copied.entries()[i].1@, copies->Table_0@[i].value->String_0@),
{
    if 0 <= i < spec.entries().len() {
        assert(shows_builtin_entry(modules->Table_0@[i], spec.entries()[i]));
    }
    if 0 <= i < map.entries().len() {
        assert(shows_path_text(paths->Table_0@[i], map.entries()[i]));
    }
    if 0 <= i < copied.entries().len() {
        assert(shows_named_path(copies->Table_0@[i], copied.entries()[i]));
    }
}

} // verus!
