//! The paths in which Lua and the shell search: `package.path`, `package.cpath` and `PATH`.

use crate::slash_path::{
    contains_path, distinct_paths_stay, is_clean, is_portable, is_slash_text_in, joined_in,
    lists_once, path_join_in, paths_unique, same_path, slash_text, slash_texts_name_the_same_path,
    unique_paths, unique_paths_are_the_paths, unique_paths_list_once, PathStyle,
};
use crate::text::{
    concat, copy, has_char, join, join_with, lemma_join_split, lemma_pieces_hold_no_separator,
    lemma_split_concat, lemma_split_join, lemma_split_one, split, split_on, texts, trim_end,
    trim_end_matches, trim_start, trim_start_matches,
};
use vstd::prelude::*;

verus! {

/// The directory can stand in `PATH`: it holds no colon, or on Windows, where a directory may stand
/// between double quotes, no double quote.
pub open spec fn is_joinable(style: PathStyle, path: Seq<char>) -> bool {
    match style {
        PathStyle::Unix => !path.contains(':'),
        PathStyle::Windows => !path.contains('"'),
    }
}

/// All directories can stand in `PATH`.
pub open spec fn all_joinable(style: PathStyle, paths: Seq<Seq<char>>) -> bool {
    forall|i: int| 0 <= i < paths.len() ==> is_joinable(style, #[trigger] paths[i])
}

/// What stands between the directories.
pub open spec fn list_separator(style: PathStyle) -> char {
    match style {
        PathStyle::Unix => ':',
        PathStyle::Windows => ';',
    }
}

/// How the directory stands in `PATH`.
pub open spec fn list_item(style: PathStyle, path: Seq<char>) -> Seq<char> {
    if style == PathStyle::Windows && path.contains(';') {
        seq!['"'] + path + seq!['"']
    } else {
        path
    }
}

/// How the directories stand in `PATH`.
pub open spec fn list_items(style: PathStyle, paths: Seq<Seq<char>>) -> Seq<Seq<char>> {
    paths.map_values(|path: Seq<char>| list_item(style, path))
}

/// The value of `PATH` with these directories, or the empty text where one of them cannot stand
/// there.
pub open spec fn joined_list(style: PathStyle, paths: Seq<Seq<char>>) -> Seq<char> {
    if all_joinable(style, paths) {
        join_with(list_items(style, paths), seq![list_separator(style)])
    } else {
        Seq::empty()
    }
}

/// The end of the text stands between double quotes.
pub open spec fn ends_quoted(s: Seq<char>) -> bool
    decreases s.len(),
{
    if s.len() == 0 {
        false
    } else if s.last() == '"' {
        !ends_quoted(s.drop_last())
    } else {
        ends_quoted(s.drop_last())
    }
}

/// The pieces between the semicolons that do not stand between double quotes, without the quotes.
pub open spec fn split_quoted(s: Seq<char>) -> Seq<Seq<char>>
    decreases s.len(),
{
    if s.len() == 0 {
        seq![Seq::empty()]
    } else {
        let before = split_quoted(s.drop_last());
        if s.last() == '"' {
            before
        } else if s.last() == ';' && !ends_quoted(s.drop_last()) {
            before.push(Seq::empty())
        } else {
            before.drop_last().push(before.last().push(s.last()))
        }
    }
}

/// The directories of `PATH`.
pub open spec fn split_list(style: PathStyle, s: Seq<char>) -> Seq<Seq<char>> {
    match style {
        PathStyle::Unix => split(s, ':'),
        PathStyle::Windows => split_quoted(s),
    }
}

/// The paths of a `package.path`, with leading and trailing semicolons left out.
pub open spec fn package_paths(s: Seq<char>) -> Seq<Seq<char>> {
    split(trim_end(trim_start(s, ";"@), ";"@), ';')
}

/// The texts are those of the paths with slashes.
pub open spec fn are_slash_texts(
    style: PathStyle,
    paths: Seq<Seq<char>>,
    all: Seq<Seq<char>>,
) -> bool {
    &&& paths.len() == all.len()
    &&& forall|i: int| 0 <= i < paths.len() ==> is_slash_text_in(
        style,
        paths[i],
        #[trigger] all[i],
    )
}

/// The text is the value of a Lua variable with these entries, each once.
pub open spec fn is_package_value(
    style: PathStyle,
    paths: Seq<Seq<char>>,
    value: Seq<char>,
) -> bool {
    exists|all: Seq<Seq<char>>| #[trigger]
        are_slash_texts(style, unique_paths(style, paths), all) && value == join_with(all, ";"@)
}

/// A `package.path` or a `package.cpath`.
#[derive(PartialEq, Eq, Debug, Clone)]
pub struct PackagePath(pub Vec<String>);

impl View for PackagePath {
    type V = Seq<Seq<char>>;

    open spec fn view(&self) -> Seq<Seq<char>> {
        texts(self.0@)
    }
}

/// The strings of both lists, those of `first` before those of `second`.
fn chained(first: &Vec<String>, second: &mut Vec<String>) -> (r: Vec<String>)
    ensures
        texts(r@) == texts(first@) + texts(old(second)@),
{
    let mut r: Vec<String> = Vec::new();
    let ghost parts = texts(first@);
    let mut i: usize = 0;
    while i < first.len()
        invariant
            i <= first@.len(),
            parts == texts(first@),
            texts(r@) == parts.take(i as int),
        decreases first@.len() - i,
    {
        let ghost before = r@;
        r.push(copy(first[i].as_str()));
        proof {
            assert(texts(r@) == texts(before).push(parts[i as int]));
            assert(parts.take(i + 1) == parts.take(i as int).push(parts[i as int]));
        }
        i = i + 1;
    }
    let ghost before = r@;
    let ghost added = second@;
    r.append(second);
    proof {
        assert(parts.take(parts.len() as int) == parts);
        assert(texts(r@) == texts(before) + texts(added));
    }
    r
}

impl Default for PackagePath {
    /// A path without entries.
    fn default() -> (r: PackagePath)
        ensures
            r@ == Seq::<Seq<char>>::empty(),
    {
        let r = PackagePath(Vec::new());
        assert(r@ == Seq::<Seq<char>>::empty());
        r
    }
}

impl PackagePath {
    /// Puts the entries of `other` in front.
    pub fn prepend(&mut self, other: &PackagePath)
        ensures
            final(self)@ == other@ + old(self)@,
    {
        self.0 = chained(&other.0, &mut self.0);
    }

    /// Whether the path has no entries.
    pub fn is_empty(&self) -> (r: bool)
        ensures
            r == (self@.len() == 0),
    {
        self.0.len() == 0
    }

    /// The value of the Lua variable, with each entry once.
    pub fn joined(&self, style: PathStyle) -> (r: String)
        ensures
            is_package_value(style, self@, r@),
    {
        let mut rest: Vec<String> = Vec::new();
        assert(texts(rest@) == Seq::<Seq<char>>::empty());
        let copies = chained(&self.0, &mut rest);
        assert(texts(copies@) == self@);
        let unique = paths_unique(style, copies);
        let ghost parts = unique_paths(style, self@);
        let mut all: Vec<String> = Vec::new();
        let mut i: usize = 0;
        while i < unique.len()
            invariant
                i <= unique@.len(),
                parts == texts(unique@),
                all@.len() == i,
                forall|k: int| 0 <= k < i ==> is_slash_text_in(style, parts[k], (#[trigger] all@[k])@),
            decreases unique@.len() - i,
        {
            assert(parts[i as int] == unique@[i as int]@);
            all.push(slash_text(style, unique[i].as_str()));
            i = i + 1;
        }
        assert(are_slash_texts(style, parts, texts(all@)));
        join(&all, ";")
    }

    /// The path that the value of the Lua variable says.
    pub fn from_str(s: &str) -> (r: Result<PackagePath, &'static str>)
        ensures
            r matches Ok(path) && path@ == package_paths(s@),
    {
        let trimmed = trim_end_matches(trim_start_matches(s, ";").as_str(), ";");
        Ok(PackagePath(split_on(trimmed.as_str(), ';')))
    }
}

/// A `PATH`.
#[derive(PartialEq, Eq, Debug)]
pub struct BinPath(pub Vec<String>);

impl View for BinPath {
    type V = Seq<Seq<char>>;

    open spec fn view(&self) -> Seq<Seq<char>> {
        texts(self.0@)
    }
}

/// Whether the directory can stand in `PATH`.
fn can_join(style: PathStyle, path: &str) -> (r: bool)
    ensures
        r == is_joinable(style, path@),
{
    match style {
        PathStyle::Unix => !has_char(path, ':'),
        PathStyle::Windows => !has_char(path, '"'),
    }
}

/// A string of one character.
fn one_char(c: char) -> (r: String)
    ensures
        r@ == seq![c],
{
    let mut r = String::new();
    r.push(c);
    assert(r@ == seq![c]);
    r
}

/// How the directory stands in `PATH`.
fn item(style: PathStyle, path: &str) -> (r: String)
    ensures
        r@ == list_item(style, path@),
{
    if style == PathStyle::Windows && has_char(path, ';') {
        let quote = one_char('"');
        concat(concat(quote.as_str(), path).as_str(), quote.as_str())
    } else {
        copy(path)
    }
}

/// The value of `PATH` with these directories.
fn join_list(style: PathStyle, paths: &Vec<String>) -> (r: String)
    ensures
        r@ == joined_list(style, texts(paths@)),
{
    let ghost parts = texts(paths@);
    let mut items: Vec<String> = Vec::new();
    let mut i: usize = 0;
    while i < paths.len()
        invariant
            i <= paths@.len(),
            parts == texts(paths@),
            all_joinable(style, parts.take(i as int)),
            texts(items@) == list_items(style, parts.take(i as int)),
        decreases paths@.len() - i,
    {
        let ghost before = items@;
        let path = &paths[i];
        assert(parts[i as int] == path@);
        if !can_join(style, path.as_str()) {
            assert(!all_joinable(style, parts));
            let r = String::new();
            assert(r@ == Seq::<char>::empty());
            return r;
        }
        items.push(item(style, path.as_str()));
        proof {
            assert(parts.take(i + 1) == parts.take(i as int).push(path@));
            assert(texts(items@) == texts(before).push(list_item(style, path@)));
            assert(list_items(style, parts.take(i + 1)) == list_items(
                style,
                parts.take(i as int),
            ).push(list_item(style, path@)));
            assert forall|k: int| 0 <= k < i + 1 implies is_joinable(
                style,
                #[trigger] parts.take(i + 1)[k],
            ) by {
                if k < i {
                    assert(parts.take(i as int)[k] == parts[k]);
                }
            }
        }
        i = i + 1;
    }
    assert(parts.take(parts.len() as int) == parts);
    let separator = match style {
        PathStyle::Unix => one_char(':'),
        PathStyle::Windows => one_char(';'),
    };
    join(&items, separator.as_str())
}

/// The pieces between the semicolons that do not stand between double quotes, without the quotes.
fn split_unquoted(s: &str) -> (r: Vec<String>)
    ensures
        texts(r@) == split_quoted(s@),
{
    let mut r: Vec<String> = Vec::new();
    let mut piece: String = String::new();
    let mut quoted: bool = false;
    for c in it: s.chars()
        invariant
            it.seq() == s@,
            quoted == ends_quoted(s@.take(it.index())),
            texts(r@).push(piece@) == split_quoted(s@.take(it.index())),
    {
        let ghost i = it.index();
        let ghost before = split_quoted(s@.take(i));
        proof {
            assert(s@.take(i + 1).drop_last() == s@.take(i));
            assert(s@.take(i + 1).last() == s@[i]);
            assert(before.drop_last() == texts(r@));
            assert(before.last() == piece@);
        }
        if c == '"' {
            quoted = !quoted;
        } else if c == ';' && !quoted {
            let ghost done = texts(r@);
            r.push(piece);
            proof {
                assert(texts(r@) == done.push(piece@));
            }
            piece = String::new();
        } else {
            piece.push(c);
        }
    }
    assert(s@.take(s@.len() as int) == s@);
    let ghost done = texts(r@);
    r.push(piece);
    assert(texts(r@) == done.push(piece@));
    r
}

impl Default for BinPath {
    /// A `PATH` without directories.
    fn default() -> (r: BinPath)
        ensures
            r@ == Seq::<Seq<char>>::empty(),
    {
        let r = BinPath(Vec::new());
        assert(r@ == Seq::<Seq<char>>::empty());
        r
    }
}

impl BinPath {
    /// The directories of the value of `PATH`.
    pub fn from_str(s: &str, style: PathStyle) -> (r: Result<BinPath, &'static str>)
        ensures
            r matches Ok(path) && path@ == split_list(style, s@),
    {
        match style {
            PathStyle::Unix => Ok(BinPath(split_on(s, ':'))),
            PathStyle::Windows => Ok(BinPath(split_unquoted(s))),
        }
    }

    /// The directories of the environment, in which `PATH` has the value `path`, or none.
    pub fn from_env(path: Option<String>, style: PathStyle) -> (r: BinPath)
        ensures
            r@ == split_list(style, value_or_empty(path)),
    {
        let path = unwrap_value(path);
        match BinPath::from_str(path.as_str(), style) {
            Ok(path) => path,
            Err(_) => BinPath::default(),
        }
    }

    /// Puts the directories of `other` in front.
    pub fn prepend(&mut self, other: &BinPath)
        ensures
            final(self)@ == other@ + old(self)@,
    {
        self.0 = chained(&other.0, &mut self.0);
    }

    /// Puts a directory in front. It is dropped where it cannot stand in `PATH`.
    pub fn add_path(&mut self, path: String, style: PathStyle)
        ensures
            final(self)@ == if is_joinable(style, path@) {
                seq![path@] + old(self)@
            } else {
                old(self)@
            },
    {
        if can_join(style, path.as_str()) {
            let mut first: Vec<String> = Vec::new();
            first.push(path);
            assert(texts(first@) == seq![path@]);
            self.0 = chained(&first, &mut self.0);
        }
    }

    /// Whether there are no directories.
    pub fn is_empty(&self) -> (r: bool)
        ensures
            r == (self@.len() == 0),
    {
        self.0.len() == 0
    }

    /// The value of `PATH`, with each directory once. It is empty where a directory cannot stand
    /// in `PATH`.
    pub fn joined(&self, style: PathStyle) -> (r: String)
        ensures
            r@ == joined_list(style, unique_paths(style, self@)),
    {
        let mut rest: Vec<String> = Vec::new();
        assert(texts(rest@) == Seq::<Seq<char>>::empty());
        let copies = chained(&self.0, &mut rest);
        assert(texts(copies@) == self@);
        let unique = paths_unique(style, copies);
        join_list(style, &unique)
    }
}

/// The directories of an installed rock.
#[derive(Debug)]
pub struct RockDirs {
    pub src: String,
    pub lib: String,
    pub bin: String,
}

/// Why there are no search paths.
#[derive(Debug)]
pub enum PathsError {
    /// What the tree of the rocks said
    Tree(String),
}

impl PathsError {
    /// What the error says.
    pub fn to_message(&self) -> (r: String)
        ensures
            match self {
                PathsError::Tree(text) => r@ == text@,
            },
    {
        match self {
            PathsError::Tree(text) => copy(text.as_str()),
        }
    }
}

/// The search paths of a tree.
#[derive(PartialEq, Eq, Debug)]
pub struct Paths {
    /// Paths for Lua libraries
    pub src: PackagePath,
    /// Paths for native Lua libraries
    pub lib: PackagePath,
    /// Paths for executables
    pub bin: BinPath,
    /// The name of the Lua version
    pub version: String,
}

/// The pattern for the native libraries in a directory.
pub open spec fn lib_pattern(style: PathStyle, dir: Seq<char>, dylib_extension: Seq<char>) -> Seq<char> {
    joined_in(style, dir, "?."@ + dylib_extension)
}

/// The patterns for the Lua files of the rocks: for each rock the files and then the directories.
pub open spec fn src_patterns(style: PathStyle, rocks: Seq<Result<RockDirs, String>>) -> Seq<Seq<char>>
    decreases rocks.len(),
{
    if rocks.len() == 0 {
        Seq::empty()
    } else {
        let dir = rocks.last()->Ok_0.src@;
        src_patterns(style, rocks.drop_last()).push(joined_in(style, dir, "?.lua"@)).push(
            joined_in(style, joined_in(style, dir, "?"@), "init.lua"@),
        )
    }
}

/// The patterns for the native libraries of the rocks.
pub open spec fn lib_patterns(
    style: PathStyle,
    rocks: Seq<Result<RockDirs, String>>,
    dylib_extension: Seq<char>,
) -> Seq<Seq<char>> {
    rocks.map_values(
        |rock: Result<RockDirs, String>| lib_pattern(style, rock->Ok_0.lib@, dylib_extension),
    )
}

/// The directories for the executables of the rocks, the last rock first, without those that
/// cannot stand in `PATH`.
pub open spec fn bin_dirs(rocks: Seq<Result<RockDirs, String>>, style: PathStyle) -> Seq<
    Seq<char>,
>
    decreases rocks.len(),
{
    if rocks.len() == 0 {
        Seq::empty()
    } else {
        let dir = rocks.last()->Ok_0.bin@;
        let before = bin_dirs(rocks.drop_last(), style);
        if is_joinable(style, dir) {
            seq![dir] + before
        } else {
            before
        }
    }
}

/// The patterns for the native libraries of the package manager itself.
pub open spec fn own_patterns(
    style: PathStyle,
    lux_lib_dir: Option<String>,
    dylib_extension: Seq<char>,
) -> Seq<Seq<char>> {
    match lux_lib_dir {
        Some(dir) => seq![lib_pattern(style, dir@, dylib_extension)],
        None => Seq::empty(),
    }
}

/// The value of a variable of the environment.
pub open spec fn value_or_empty(value: Option<String>) -> Seq<char> {
    match value {
        Some(value) => value@,
        None => Seq::empty(),
    }
}

/// The value of a variable of the environment, or the empty string.
fn unwrap_value(value: Option<String>) -> (r: String)
    ensures
        r@ == value_or_empty(value),
{
    match value {
        Some(value) => value,
        None => {
            let value = String::new();
            assert(value@ == Seq::<char>::empty());
            value
        },
    }
}

impl Paths {
    /// The search paths of a tree without rocks.
    fn default(version: String) -> (r: Paths)
        ensures
            r.src@ == Seq::<Seq<char>>::empty(),
            r.lib@ == Seq::<Seq<char>>::empty(),
            r.bin@ == Seq::<Seq<char>>::empty(),
            r.version == version,
    {
        Paths {
            src: PackagePath::default(),
            lib: PackagePath::default(),
            bin: BinPath::default(),
            version,
        }
    }

    /// The search paths of the rocks of a tree. `rocks` has the directories of each rock, or what
    /// the tree said where it has none, and `lux_lib_dir` is the directory of the package
    /// manager's own native libraries.
    pub fn new(
        rocks: Vec<Result<RockDirs, String>>,
        version: String,
        lux_lib_dir: Option<String>,
        dylib_extension: &str,
        style: PathStyle,
    ) -> (r: Result<Paths, PathsError>)
        ensures
            match r {
                Ok(paths) => {
                    &&& forall|i: int| 0 <= i < rocks@.len() ==> #[trigger] rocks@[i] is Ok
                    &&& paths.src@ == src_patterns(style, rocks@)
                    &&& paths.lib@ == own_patterns(style, lux_lib_dir, dylib_extension@) + lib_patterns(style, 
                        rocks@,
                        dylib_extension@,
                    )
                    &&& paths.bin@ == bin_dirs(rocks@, style)
                    &&& paths.version == version
                },
                Err(PathsError::Tree(text)) => exists|i: int|
                    0 <= i < rocks@.len() && #[trigger] rocks@[i] == Err::<RockDirs, String>(text)
                        && forall|j: int| 0 <= j < i ==> #[trigger] rocks@[j] is Ok,
            },
    {
        let ghost all = rocks@;
        let mut paths = Paths::default(version);
        let pattern = concat("?.", dylib_extension);
        assert(lib_patterns(style, all.take(0), dylib_extension@) == Seq::<Seq<char>>::empty());
        for rock in it: rocks
            invariant
                it.seq() == all,
                all == rocks@,
                pattern@ == "?."@ + dylib_extension@,
                forall|i: int| 0 <= i < it.index() ==> #[trigger] all[i] is Ok,
                paths.src@ == src_patterns(style, all.take(it.index())),
                paths.lib@ == lib_patterns(style, all.take(it.index()), dylib_extension@),
                paths.bin@ == bin_dirs(all.take(it.index()), style),
                paths.version == version,
        {
            let ghost i = it.index();
            proof {
                assert(all[i] == rock);
                assert(all.take(i + 1).drop_last() == all.take(i));
                assert(all.take(i + 1).last() == rock);
            }
            let dirs = match rock {
                Ok(dirs) => dirs,
                Err(text) => {
                    return Err(PathsError::Tree(text));
                },
            };
            let ghost before = paths.src@;
            let ghost before_lib = paths.lib@;
            let files = path_join_in(style, dirs.src.as_str(), "?.lua");
            let inits = path_join_in(
                style,
                path_join_in(style, dirs.src.as_str(), "?").as_str(),
                "init.lua",
            );
            let libs = path_join_in(style, dirs.lib.as_str(), pattern.as_str());
            paths.src.0.push(files);
            paths.src.0.push(inits);
            paths.lib.0.push(libs);
            proof {
                assert(paths.src@ == before.push(files@).push(inits@));
                assert(paths.lib@ == before_lib.push(libs@));
                assert(lib_patterns(style, all.take(i + 1), dylib_extension@) == lib_patterns(style, 
                    all.take(i),
                    dylib_extension@,
                ).push(libs@));
            }
            paths.bin.add_path(dirs.bin, style);
        }
        assert(all.take(all.len() as int) == all);
        match lux_lib_dir {
            Some(dir) => {
                let mut own: Vec<String> = Vec::new();
                own.push(path_join_in(style, dir.as_str(), pattern.as_str()));
                let own_lib = PackagePath(own);
                assert(own_lib@ == seq![lib_pattern(style, dir@, dylib_extension@)]);
                let own_paths = Paths {
                    src: PackagePath::default(),
                    lib: own_lib,
                    bin: BinPath::default(),
                    version: String::new(),
                };
                let ghost before = paths;
                paths.prepend(&own_paths);
                assert(paths.src@ == before.src@);
                assert(paths.bin@ == before.bin@);
            },
            None => {
                assert(own_patterns(style, lux_lib_dir, dylib_extension@) + paths.lib@ == paths.lib@);
            },
        }
        Ok(paths)
    }

    /// Get the `package.path`
    pub fn package_path(&self) -> (r: &PackagePath)
        ensures
            *r == self.src,
    {
        &self.src
    }

    /// Get the `package.cpath`
    pub fn package_cpath(&self) -> (r: &PackagePath)
        ensures
            *r == self.lib,
    {
        &self.lib
    }

    /// Get the `package.path`, prepended to `LUA_PATH`, of which `lua_path` is the value
    pub fn package_path_prepended(&self, lua_path: Option<String>) -> (r: PackagePath)
        ensures
            r@ == self.src@ + package_paths(value_or_empty(lua_path)),
    {
        prepended(self.package_path(), lua_path)
    }

    /// Get the `package.cpath`, prepended to `LUA_CPATH`, of which `lua_cpath` is the value
    pub fn package_cpath_prepended(&self, lua_cpath: Option<String>) -> (r: PackagePath)
        ensures
            r@ == self.lib@ + package_paths(value_or_empty(lua_cpath)),
    {
        prepended(self.package_cpath(), lua_cpath)
    }

    /// Get the `$PATH`
    pub fn path(&self) -> (r: &BinPath)
        ensures
            *r == self.bin,
    {
        &self.bin
    }

    /// Get `$LUA_INIT`
    pub fn init(&self) -> (r: String)
        ensures
            r@ == "if _VERSION:find('"@ + self.version@ + "') then require('lux').loader() end"@,
    {
        concat(
            concat("if _VERSION:find('", self.version.as_str()).as_str(),
            "') then require('lux').loader() end",
        )
    }

    /// Get the `$PATH`, prepended to the existing `$PATH`, of which `path` is the value
    pub fn path_prepended(&self, path: Option<String>, style: PathStyle) -> (r: BinPath)
        ensures
            r@ == self.bin@ + split_list(style, value_or_empty(path)),
    {
        let mut r = BinPath::from_env(path, style);
        r.prepend(self.path());
        r
    }

    /// Puts the search paths of `other` in front.
    pub fn prepend(&mut self, other: &Paths)
        ensures
            final(self).src@ == other.src@ + old(self).src@,
            final(self).lib@ == other.lib@ + old(self).lib@,
            final(self).bin@ == other.bin@ + old(self).bin@,
            final(self).version == old(self).version,
    {
        self.src.prepend(&other.src);
        self.lib.prepend(&other.lib);
        self.bin.prepend(&other.bin);
    }
}

/// The path in front of the value of a Lua variable.
fn prepended(path: &PackagePath, value: Option<String>) -> (r: PackagePath)
    ensures
        r@ == path@ + package_paths(value_or_empty(value)),
{
    let value = unwrap_value(value);
    let mut r = match PackagePath::from_str(value.as_str()) {
        Ok(path) => path,
        Err(_) => PackagePath::default(),
    };
    r.prepend(path);
    r
}

proof fn lemma_semicolon()
    ensures
        ";"@ == seq![';'],
{
    reveal_strlit(";");
    assert(";"@ == seq![';']);
}

proof fn lemma_trim_start_then(s: Seq<char>)
    ensures
        trim_start(s, ";"@).len() == 0 ==> trim_start(s.push(';'), ";"@).len() == 0,
        0 < trim_start(s, ";"@).len() ==> trim_start(s.push(';'), ";"@) == trim_start(
            s,
            ";"@,
        ).push(';'),
    decreases s.len(),
{
    lemma_semicolon();
    let longer = s.push(';');
    if s.len() == 0 {
        assert(longer.subrange(0, 1) == seq![';']);
        assert(longer.skip(1).len() == 0);
        assert(trim_start(longer, ";"@) == trim_start(longer.skip(1), ";"@));
    } else if s[0] == ';' {
        lemma_trim_start_then(s.skip(1));
        assert(s.subrange(0, 1) == seq![';']);
        assert(longer.subrange(0, 1) == seq![';']);
        assert(longer.skip(1) == s.skip(1).push(';'));
    } else {
        assert(s.subrange(0, 1)[0] != seq![';'][0]);
        assert(longer.subrange(0, 1)[0] != seq![';'][0]);
    }
}

/// Semicolons in front of the value of a Lua variable and behind it make no difference.
pub proof fn package_paths_ignore_delimiters(s: Seq<char>)
    ensures
        package_paths(";"@ + s) == package_paths(s),
        package_paths(s + ";"@) == package_paths(s),
{
    lemma_semicolon();
    let front = ";"@ + s;
    assert(front.subrange(0, 1) == seq![';']);
    assert(front.skip(1) == s);
    lemma_trim_start_then(s);
    assert(s + ";"@ == s.push(';'));
    let rest = trim_start(s, ";"@);
    if 0 < rest.len() {
        let longer = rest.push(';');
        assert(longer.subrange(longer.len() - 1, longer.len() as int) == seq![';']);
        assert(longer.take(longer.len() - 1) == rest);
    } else {
        assert(trim_start(s + ";"@, ";"@) == rest);
    }
}

proof fn lemma_join_ends(parts: Seq<Seq<char>>, sep: Seq<char>)
    requires
        0 < parts.len(),
        0 < parts[0].len(),
    ensures
        0 < join_with(parts, sep).len(),
        join_with(parts, sep)[0] == parts[0][0],
    decreases parts.len(),
{
    if 1 < parts.len() {
        assert(parts.drop_last()[0] == parts[0]);
        lemma_join_ends(parts.drop_last(), sep);
    }
}

/// The value of a Lua variable with these entries is read as these entries. The entries hold no
/// semicolon, and neither the first nor the last is empty.
pub proof fn package_paths_are_read_as_joined(parts: Seq<Seq<char>>)
    requires
        0 < parts.len(),
        0 < parts[0].len(),
        0 < parts.last().len(),
        forall|i: int| 0 <= i < parts.len() ==> !(#[trigger] parts[i]).contains(';'),
    ensures
        package_paths(join_with(parts, ";"@)) == parts,
{
    lemma_semicolon();
    let s = join_with(parts, ";"@);
    lemma_join_ends(parts, ";"@);
    assert(s[0] != ';') by {
        assert(!parts[0].contains(';'));
        assert(parts[0].contains(parts[0][0]));
    }
    assert(s.subrange(0, 1)[0] != seq![';'][0]);
    assert(s.last() == parts.last().last());
    assert(s.last() != ';') by {
        let last = parts[parts.len() - 1];
        assert(!last.contains(';'));
        assert(last.contains(last[last.len() - 1]));
    }
    assert(s.subrange(s.len() - 1, s.len() as int)[0] != seq![';'][0]);
    lemma_split_join(parts, ';');
}

/// The entries that were read make the value that was read, without the semicolons in front of it
/// and behind it.
pub proof fn package_paths_are_joined_as_read(s: Seq<char>)
    ensures
        join_with(package_paths(s), ";"@) == trim_end(trim_start(s, ";"@), ";"@),
{
    lemma_semicolon();
    lemma_join_split(trim_end(trim_start(s, ";"@), ";"@), ';');
}

/// A `package.path` is read as it was joined: each path once. The paths are not empty and hold no
/// semicolon, and for Windows they are clean.
pub proof fn package_path_is_read_as_joined(
    style: PathStyle,
    paths: Seq<Seq<char>>,
    value: Seq<char>,
)
    requires
        0 < paths.len(),
        forall|i: int|
            0 <= i < paths.len() ==> 0 < (#[trigger] paths[i]).len() && !paths[i].contains(';') && (
            style == PathStyle::Windows ==> is_clean(paths[i])),
        is_package_value(style, paths, value),
    ensures
        package_paths(value) == unique_paths(style, paths),
{
    let unique = unique_paths(style, paths);
    let all = choose|all: Seq<Seq<char>>| #[trigger]
        are_slash_texts(style, unique, all) && value == join_with(all, ";"@);
    unique_paths_are_the_paths(style, paths);
    assert forall|i: int| 0 <= i < unique.len() implies all[i] == unique[i] && 0 < unique[i].len()
        && !unique[i].contains(';') by {
        assert(paths.contains(unique[i]));
        let k = choose|k: int| 0 <= k < paths.len() && paths[k] == unique[i];
        assert(0 < paths[k].len());
        assert(is_slash_text_in(style, unique[i], all[i]));
    }
    assert(all == unique);
    assert(contains_path(style, unique, paths[0]));
    package_paths_are_read_as_joined(unique);
}

/// On Windows a `package.path` of portable paths is read as the same paths, each once, though they
/// may be written in another way. The paths are not empty and hold no semicolon.
pub proof fn portable_paths_are_read_as_the_same_paths(paths: Seq<Seq<char>>, value: Seq<char>)
    requires
        0 < paths.len(),
        forall|i: int|
            0 <= i < paths.len() ==> is_portable(#[trigger] paths[i]) && 0 < paths[i].len()
                && !paths[i].contains(';'),
        is_package_value(PathStyle::Windows, paths, value),
    ensures
        ({
            let read = package_paths(value);
            let unique = unique_paths(PathStyle::Windows, paths);
            &&& read.len() == unique.len()
            &&& forall|i: int|
                0 <= i < unique.len() ==> same_path(
                    PathStyle::Windows,
                    unique[i],
                    #[trigger] read[i],
                )
        }),
{
    let style = PathStyle::Windows;
    let unique = unique_paths(style, paths);
    let all = choose|all: Seq<Seq<char>>| #[trigger]
        are_slash_texts(style, unique, all) && value == join_with(all, ";"@);
    unique_paths_are_the_paths(style, paths);
    assert forall|i: int| 0 <= i < unique.len() implies same_path(
        style,
        unique[i],
        #[trigger] all[i],
    ) && 0 < all[i].len() && !all[i].contains(';') by {
        assert(paths.contains(unique[i]));
        let k = choose|k: int| 0 <= k < paths.len() && paths[k] == unique[i];
        assert(is_portable(paths[k]));
        assert(is_slash_text_in(style, unique[i], all[i]));
        slash_texts_name_the_same_path(unique[i], all[i]);
    }
    assert(contains_path(style, unique, paths[0]));
    package_paths_are_read_as_joined(all);
}

/// Paths of which no two are the same are read as they were joined.
pub proof fn distinct_paths_are_read_as_joined(
    style: PathStyle,
    paths: Seq<Seq<char>>,
    value: Seq<char>,
)
    requires
        0 < paths.len(),
        forall|i: int|
            0 <= i < paths.len() ==> 0 < (#[trigger] paths[i]).len() && !paths[i].contains(';') && (
            style == PathStyle::Windows ==> is_clean(paths[i])),
        forall|i: int, j: int|
            0 <= i < j < paths.len() ==> !same_path(style, #[trigger] paths[i], #[trigger] paths[j]),
        is_package_value(style, paths, value),
    ensures
        package_paths(value) == paths,
{
    package_path_is_read_as_joined(style, paths, value);
    distinct_paths_stay(style, paths);
}

proof fn lemma_split_quoted_len(s: Seq<char>)
    ensures
        1 <= split_quoted(s).len(),
    decreases s.len(),
{
    if 0 < s.len() {
        lemma_split_quoted_len(s.drop_last());
    }
}

proof fn lemma_split_quoted_concat(a: Seq<char>, b: Seq<char>)
    requires
        !ends_quoted(a),
    ensures
        split_quoted(a + seq![';'] + b) == split_quoted(a) + split_quoted(b),
        ends_quoted(a + seq![';'] + b) == ends_quoted(b),
    decreases b.len(),
{
    let s = a + seq![';'] + b;
    if b.len() == 0 {
        assert(s.drop_last() == a);
        assert(split_quoted(s) == split_quoted(a) + split_quoted(b));
    } else {
        let before = b.drop_last();
        lemma_split_quoted_concat(a, before);
        lemma_split_quoted_len(before);
        assert(s.drop_last() == a + seq![';'] + before);
        assert(s.last() == b.last());
        let pieces = split_quoted(a) + split_quoted(before);
        assert(pieces.last() == split_quoted(before).last());
        assert(pieces.drop_last() == split_quoted(a) + split_quoted(before).drop_last());
        assert(split_quoted(s) == split_quoted(a) + split_quoted(b));
    }
}

proof fn lemma_unquoted(path: Seq<char>)
    requires
        !path.contains('"'),
        !path.contains(';'),
    ensures
        !ends_quoted(path),
        split_quoted(path) == seq![path],
    decreases path.len(),
{
    if 0 < path.len() {
        let before = path.drop_last();
        assert forall|c: char| !path.contains(c) implies !before.contains(c) by {
            if before.contains(c) {
                let i = choose|i: int| 0 <= i < before.len() && before[i] == c;
                assert(path[i] == c);
            }
        }
        lemma_unquoted(before);
        assert(path.contains(path[path.len() - 1]));
        assert(before.push(path.last()) == path);
        assert(split_quoted(path) == seq![path]);
    } else {
        assert(path == Seq::<char>::empty());
    }
}

proof fn lemma_quoted(path: Seq<char>)
    requires
        !path.contains('"'),
    ensures
        ends_quoted(seq!['"'] + path),
        split_quoted(seq!['"'] + path) == seq![path],
    decreases path.len(),
{
    let s = seq!['"'] + path;
    if 0 < path.len() {
        let before = path.drop_last();
        assert(!before.contains('"')) by {
            if before.contains('"') {
                let i = choose|i: int| 0 <= i < before.len() && before[i] == '"';
                assert(path[i] == '"');
            }
        }
        lemma_quoted(before);
        assert(path.contains(path[path.len() - 1]));
        assert(s.drop_last() == seq!['"'] + before);
        assert(before.push(path.last()) == path);
        assert(split_quoted(s) == seq![path]);
    } else {
        reveal_with_fuel(split_quoted, 2);
        reveal_with_fuel(ends_quoted, 2);
        assert(s.drop_last() == Seq::<char>::empty());
        assert(path == Seq::<char>::empty());
    }
}

proof fn lemma_item(path: Seq<char>)
    requires
        !path.contains('"'),
    ensures
        !ends_quoted(list_item(PathStyle::Windows, path)),
        split_quoted(list_item(PathStyle::Windows, path)) == seq![path],
{
    if path.contains(';') {
        lemma_quoted(path);
        let s = seq!['"'] + path + seq!['"'];
        assert(s.drop_last() == seq!['"'] + path);
    } else {
        lemma_unquoted(path);
    }
}

proof fn lemma_split_quoted_join(paths: Seq<Seq<char>>)
    requires
        0 < paths.len(),
        all_joinable(PathStyle::Windows, paths),
    ensures
        ({
            let s = join_with(list_items(PathStyle::Windows, paths), seq![';']);
            split_quoted(s) == paths && !ends_quoted(s)
        }),
    decreases paths.len(),
{
    let style = PathStyle::Windows;
    let items = list_items(style, paths);
    let last = paths[paths.len() - 1];
    assert(is_joinable(style, last));
    lemma_item(last);
    assert(items.last() == list_item(style, last));
    if paths.len() == 1 {
        assert(seq![last] == paths);
    } else {
        let before = paths.drop_last();
        assert forall|i: int| 0 <= i < before.len() implies is_joinable(
            style,
            #[trigger] before[i],
        ) by {
            assert(before[i] == paths[i]);
        }
        lemma_split_quoted_join(before);
        assert(list_items(style, before) == items.drop_last());
        lemma_split_quoted_concat(join_with(items.drop_last(), seq![';']), items.last());
        assert(before + seq![last] == paths);
    }
}

/// The value of `PATH` with these directories is read as these directories, where all of them can
/// stand there.
pub proof fn path_list_is_read_as_joined(style: PathStyle, paths: Seq<Seq<char>>)
    requires
        0 < paths.len(),
        all_joinable(style, paths),
    ensures
        split_list(style, joined_list(style, paths)) == paths,
{
    match style {
        PathStyle::Unix => {
            assert(list_items(style, paths) == paths);
            lemma_split_join(paths, ':');
        },
        PathStyle::Windows => {
            lemma_split_quoted_join(paths);
        },
    }
}

/// A `PATH` is read as it was joined: each directory once, where all of them can stand there.
pub proof fn bin_path_is_read_as_joined(style: PathStyle, paths: Seq<Seq<char>>)
    requires
        0 < paths.len(),
        all_joinable(style, paths),
    ensures
        split_list(style, joined_list(style, unique_paths(style, paths))) == unique_paths(
            style,
            paths,
        ),
{
    let unique = unique_paths(style, paths);
    unique_paths_are_the_paths(style, paths);
    assert forall|i: int| 0 <= i < unique.len() implies is_joinable(style, #[trigger] unique[i]) by {
        assert(paths.contains(unique[i]));
        let k = choose|k: int| 0 <= k < paths.len() && paths[k] == unique[i];
        assert(is_joinable(style, paths[k]));
    }
    assert(contains_path(style, unique, paths[0]));
    path_list_is_read_as_joined(style, unique);
}

/// The directories of the rocks can all stand in `PATH`.
pub proof fn bin_dirs_are_joinable(rocks: Seq<Result<RockDirs, String>>, style: PathStyle)
    ensures
        all_joinable(style, bin_dirs(rocks, style)),
    decreases rocks.len(),
{
    if 0 < rocks.len() {
        let before = bin_dirs(rocks.drop_last(), style);
        let now = bin_dirs(rocks, style);
        bin_dirs_are_joinable(rocks.drop_last(), style);
        assert forall|i: int| 0 <= i < now.len() implies is_joinable(style, #[trigger] now[i]) by {
            if now.len() == before.len() {
                assert(now[i] == before[i]);
            } else if 0 < i {
                assert(now[i] == before[i - 1]);
            }
        }
    }
}

/// What is prepended stands in front, and everything that was there stays, behind it.
pub proof fn prepended_paths_stand_in_front(
    path: &mut PackagePath,
    other: &PackagePath,
    bin: &mut BinPath,
    other_bin: &BinPath,
    paths: &mut Paths,
    other_paths: &Paths,
)
    requires
        call_ensures(PackagePath::prepend, (path, other), ()),
        call_ensures(BinPath::prepend, (bin, other_bin), ()),
        call_ensures(Paths::prepend, (paths, other_paths), ()),
    ensures
        final(path)@ == other@ + old(path)@,
        final(bin)@ == other_bin@ + old(bin)@,
        final(paths).src@ == other_paths.src@ + old(paths).src@,
        final(paths).lib@ == other_paths.lib@ + old(paths).lib@,
        final(paths).bin@ == other_paths.bin@ + old(paths).bin@,
        final(paths).version == old(paths).version,
{
}

/// A directory that can be listed is put in front of the others, which stay; one that cannot,
/// because it holds a colon on Unix or a quote on Windows, changes nothing.
pub proof fn added_path_stands_in_front(bin: &mut BinPath, path: String, style: PathStyle)
    requires
        call_ensures(BinPath::add_path, (bin, path, style), ()),
    ensures
        style is Unix && path@.contains(':') ==> final(bin)@ == old(bin)@,
        style is Windows && path@.contains('"') ==> final(bin)@ == old(bin)@,
        style is Unix && !path@.contains(':') ==> final(bin)@ == seq![path@] + old(bin)@,
        style is Windows && !path@.contains('"') ==> final(bin)@ == seq![path@] + old(bin)@,
{
}

/// A package path that was joined is read as the paths that were joined, each once. On Windows
/// this is so of clean paths.
pub proof fn joined_package_path_is_read_back(
    path: &PackagePath,
    style: PathStyle,
    text: String,
    s: &str,
    read: PackagePath,
)
    requires
        call_ensures(PackagePath::joined, (path, style), text),
        s@ == text@,
        call_ensures(PackagePath::from_str, (s,), Ok::<PackagePath, &'static str>(read)),
        0 < path@.len(),
        forall|i: int|
            0 <= i < path@.len() ==> 0 < (#[trigger] path@[i]).len() && !path@[i].contains(';') && (
            style == PathStyle::Windows ==> is_clean(path@[i])),
    ensures
        lists_once(style, path@, read@),
        0 < read@.len(),
        read@[0] == path@[0],
        (forall|i: int, j: int|
            0 <= i < j < path@.len() ==> !same_path(
                style,
                #[trigger] path@[i],
                #[trigger] path@[j],
            )) ==> read@ == path@,
{
    package_path_is_read_as_joined(style, path@, text@);
    unique_paths_list_once(style, path@);
    if forall|i: int, j: int|
        0 <= i < j < path@.len() ==> !same_path(style, #[trigger] path@[i], #[trigger] path@[j]) {
        distinct_paths_stay(style, path@);
    }
}

/// Every text is read as a package path. Delimiters in front of and behind it make no difference,
/// and no path that is read holds a delimiter.
pub proof fn delimiters_around_a_package_path_are_ignored(
    s: &str,
    in_front: &str,
    behind: &str,
    r: Result<PackagePath, &'static str>,
    a: Result<PackagePath, &'static str>,
    b: Result<PackagePath, &'static str>,
)
    requires
        call_ensures(PackagePath::from_str, (s,), r),
        call_ensures(PackagePath::from_str, (in_front,), a),
        call_ensures(PackagePath::from_str, (behind,), b),
        in_front@ == ";"@ + s@,
        behind@ == s@ + ";"@,
    ensures
        r is Ok,
        a is Ok,
        b is Ok,
        a->Ok_0@ == r->Ok_0@,
        b->Ok_0@ == r->Ok_0@,
        forall|i: int| 0 <= i < r->Ok_0@.len() ==> !(#[trigger] r->Ok_0@[i]).contains(';'),
        !s@.contains(';') ==> r->Ok_0@ == seq![s@],
{
    package_paths_ignore_delimiters(s@);
    let text = trim_end(trim_start(s@, ";"@), ";"@);
    lemma_pieces_hold_no_separator(text, ';');
    if !s@.contains(';') {
        reveal_strlit(";");
        assert(";"@[0] == ';');
        assert(!";"@.is_prefix_of(s@)) by {
            if ";"@.is_prefix_of(s@) {
                assert(s@.subrange(0, 1)[0] == s@[0]);
                assert(s@.contains(s@[0]));
            }
        }
        assert(!";"@.is_suffix_of(s@)) by {
            if ";"@.is_suffix_of(s@) {
                assert(s@.subrange(s@.len() - 1, s@.len() as int)[0] == s@[s@.len() - 1]);
                assert(s@.contains(s@[s@.len() - 1]));
            }
        }
        lemma_split_one(s@, ';');
    }
}

/// A list of directories that was joined is read as the directories that were joined, each once.
/// A list whose first one cannot be listed is joined to nothing.
pub proof fn joined_bin_path_is_read_back(
    path: &BinPath,
    style: PathStyle,
    text: String,
    s: &str,
    read: BinPath,
)
    requires
        call_ensures(BinPath::joined, (path, style), text),
        s@ == text@,
        call_ensures(BinPath::from_str, (s, style), Ok::<BinPath, &'static str>(read)),
        0 < path@.len(),
    ensures
        style is Unix && (forall|k: int|
            0 <= k < path@.len() ==> !(#[trigger] path@[k]).contains(':')) ==> lists_once(
            style,
            path@,
            read@,
        ) && 0 < read@.len() && read@[0] == path@[0],
        style is Windows && (forall|k: int|
            0 <= k < path@.len() ==> !(#[trigger] path@[k]).contains('"')) ==> lists_once(
            style,
            path@,
            read@,
        ) && 0 < read@.len() && read@[0] == path@[0],
        style is Unix && path@[0].contains(':') ==> text@.len() == 0,
        style is Windows && path@[0].contains('"') ==> text@.len() == 0,
{
    unique_paths_list_once(style, path@);
    if all_joinable(style, path@) {
        bin_path_is_read_as_joined(style, path@);
    }
    if !is_joinable(style, path@[0]) {
        assert(!all_joinable(style, unique_paths(style, path@))) by {
            assert(unique_paths(style, path@)[0] == path@[0]);
        }
    }
}

/// Every text is read as a list of directories. On Unix they stand between colons: no directory
/// holds one, and between colons the texts are the directories. On Windows they stand between
/// semicolons. A `PATH` that is not set is read as an empty one.
pub proof fn directories_stand_between_separators(
    a: &str,
    b: &str,
    both: &str,
    style: PathStyle,
    r: Result<BinPath, &'static str>,
    first: BinPath,
    second: BinPath,
)
    requires
        call_ensures(BinPath::from_str, (both, style), r),
        call_ensures(BinPath::from_str, (a, style), Ok::<BinPath, &'static str>(first)),
        call_ensures(BinPath::from_str, (b, style), Ok::<BinPath, &'static str>(second)),
        both@ == a@ + seq![
            if style is Unix {
                ':'
            } else {
                ';'
            },
        ] + b@,
        style is Windows ==> !a@.contains('"') && !b@.contains('"'),
    ensures
        r is Ok,
        r->Ok_0@ == first@ + second@,
        style is Unix && !a@.contains(':') ==> first@ == seq![a@],
        style is Windows && !a@.contains(';') ==> first@ == seq![a@],
{
    match style {
        PathStyle::Unix => {
            lemma_split_concat(a@, b@, ':');
            if !a@.contains(':') {
                lemma_split_one(a@, ':');
            }
        },
        PathStyle::Windows => {
            lemma_unquoted_is_split(a@);
            lemma_unquoted_is_split(b@);
            assert(!both@.contains('"')) by {
                if both@.contains('"') {
                    let i = choose|i: int| 0 <= i < both@.len() && both@[i] == '"';
                    if i < a@.len() {
                        assert(a@[i] == '"');
                    } else {
                        assert(b@[i - a@.len() - 1] == '"');
                    }
                }
            }
            lemma_unquoted_is_split(both@);
            lemma_split_concat(a@, b@, ';');
            if !a@.contains(';') {
                lemma_split_one(a@, ';');
            }
        },
    }
}

proof fn lemma_unquoted_is_split(s: Seq<char>)
    requires
        !s.contains('"'),
    ensures
        split_quoted(s) == split(s, ';'),
        !ends_quoted(s),
    decreases s.len(),
{
    if 0 < s.len() {
        let before = s.drop_last();
        assert(!before.contains('"')) by {
            if before.contains('"') {
                let i = choose|i: int| 0 <= i < before.len() && before[i] == '"';
                assert(s[i] == '"');
            }
        }
        assert(s.contains(s[s.len() - 1]));
        lemma_unquoted_is_split(before);
    }
}

/// A `PATH` that is set is read as its text is; one that is not set is read as an empty text is.
pub proof fn path_variable_is_read(
    path: String,
    s: &str,
    empty: &str,
    style: PathStyle,
    set: BinPath,
    unset: BinPath,
    read: BinPath,
    read_empty: BinPath,
)
    requires
        s@ == path@,
        empty@.len() == 0,
        call_ensures(BinPath::from_env, (Some(path), style), set),
        call_ensures(BinPath::from_env, (None, style), unset),
        call_ensures(BinPath::from_str, (s, style), Ok::<BinPath, &'static str>(read)),
        call_ensures(BinPath::from_str, (empty, style), Ok::<BinPath, &'static str>(read_empty)),
    ensures
        set@ == read@,
        unset@ == read_empty@,
{
    assert(empty@ == Seq::<char>::empty());
}

/// The paths of the tree stand in front of the ones that are set, which stay behind them.
pub proof fn set_paths_stay_behind(
    paths: &Paths,
    value: String,
    s: &str,
    style: PathStyle,
    lua_path: PackagePath,
    lua_cpath: PackagePath,
    path: BinPath,
    read: PackagePath,
    read_bin: BinPath,
)
    requires
        call_ensures(Paths::package_path_prepended, (paths, Some(value)), lua_path),
        call_ensures(Paths::package_cpath_prepended, (paths, Some(value)), lua_cpath),
        call_ensures(Paths::path_prepended, (paths, Some(value), style), path),
        s@ == value@,
        call_ensures(PackagePath::from_str, (s,), Ok::<PackagePath, &'static str>(read)),
        call_ensures(BinPath::from_str, (s, style), Ok::<BinPath, &'static str>(read_bin)),
    ensures
        lua_path@ == paths.src@ + read@,
        lua_cpath@ == paths.lib@ + read@,
        path@ == paths.bin@ + read_bin@,
{
}

/// The same where nothing is set: what stands behind is what an empty value is read as.
pub proof fn unset_paths_are_empty(
    paths: &Paths,
    empty: &str,
    style: PathStyle,
    lua_path: PackagePath,
    lua_cpath: PackagePath,
    path: BinPath,
    read: PackagePath,
    read_bin: BinPath,
)
    requires
        call_ensures(Paths::package_path_prepended, (paths, None), lua_path),
        call_ensures(Paths::package_cpath_prepended, (paths, None), lua_cpath),
        call_ensures(Paths::path_prepended, (paths, None, style), path),
        empty@.len() == 0,
        call_ensures(PackagePath::from_str, (empty,), Ok::<PackagePath, &'static str>(read)),
        call_ensures(BinPath::from_str, (empty, style), Ok::<BinPath, &'static str>(read_bin)),
    ensures
        lua_path@ == paths.src@ + read@,
        lua_cpath@ == paths.lib@ + read@,
        path@ == paths.bin@ + read_bin@,
{
    assert(empty@ == Seq::<char>::empty());
}

proof fn lemma_src_patterns(style: PathStyle, rocks: Seq<Result<RockDirs, String>>, i: int)
    requires
        0 <= i < rocks.len(),
    ensures
        src_patterns(style, rocks).len() == 2 * rocks.len(),
        src_patterns(style, rocks)[2 * i] == joined_in(style, rocks[i]->Ok_0.src@, "?.lua"@),
        src_patterns(style, rocks)[2 * i + 1] == joined_in(
            style,
            joined_in(style, rocks[i]->Ok_0.src@, "?"@),
            "init.lua"@,
        ),
    decreases rocks.len(),
{
    let before = rocks.drop_last();
    if 0 < before.len() {
        if i < before.len() {
            lemma_src_patterns(style, before, i);
            assert(before[i] == rocks[i]);
        } else {
            lemma_src_patterns(style, before, 0);
        }
    } else {
        assert(src_patterns(style, before).len() == 0);
    }
}

/// The paths are made of every rock of the tree: two patterns in `package.path` for the files and
/// the `init.lua` files below its `src`, and one in `package.cpath` for the libraries in its
/// `lib`, the rocks in their order. The directory of the library of this project comes first in
/// `package.cpath`. Nothing else is in them. There are no paths exactly if a rock could not be
/// read.
pub proof fn paths_are_made_of_every_rock(
    rocks: Vec<Result<RockDirs, String>>,
    version: String,
    lux_lib_dir: Option<String>,
    dylib_extension: &str,
    style: PathStyle,
    r: Result<Paths, PathsError>,
    i: int,
    src: &str,
    lib: &str,
    pattern: &str,
    files: String,
    dirs: String,
    dirs_text: &str,
    inits: String,
    libs: String,
)
    requires
        call_ensures(Paths::new, (rocks, version, lux_lib_dir, dylib_extension, style), r),
        0 <= i < rocks@.len(),
        r is Ok ==> src@ == rocks@[i]->Ok_0.src@ && lib@ == rocks@[i]->Ok_0.lib@,
        pattern@ == "?."@ + dylib_extension@,
        call_ensures(path_join_in, (style, src, "?.lua"), files),
        call_ensures(path_join_in, (style, src, "?"), dirs),
        dirs_text@ == dirs@,
        call_ensures(path_join_in, (style, dirs_text, "init.lua"), inits),
        call_ensures(path_join_in, (style, lib, pattern), libs),
    ensures
        r is Ok <==> forall|k: int| 0 <= k < rocks@.len() ==> #[trigger] rocks@[k] is Ok,
        r is Ok ==> {
            let paths = r->Ok_0;
            &&& paths.version == version
            &&& paths.src@.len() == 2 * rocks@.len()
            &&& paths.src@[2 * i] == files@
            &&& paths.src@[2 * i + 1] == inits@
            &&& lux_lib_dir is None ==> paths.lib@.len() == rocks@.len() && paths.lib@[i] == libs@
            &&& lux_lib_dir is Some ==> paths.lib@.len() == rocks@.len() + 1 && paths.lib@[i + 1]
                == libs@
        },
{
    if r is Ok {
        lemma_src_patterns(style, rocks@, i);
    }
}

/// The library of this project is looked for first.
pub proof fn own_library_comes_first(
    rocks: Vec<Result<RockDirs, String>>,
    version: String,
    dir: String,
    dylib_extension: &str,
    style: PathStyle,
    paths: Paths,
    dir_text: &str,
    pattern: &str,
    own: String,
)
    requires
        call_ensures(
            Paths::new,
            (rocks, version, Some(dir), dylib_extension, style),
            Ok::<Paths, PathsError>(paths),
        ),
        dir_text@ == dir@,
        pattern@ == "?."@ + dylib_extension@,
        call_ensures(path_join_in, (style, dir_text, pattern), own),
    ensures
        0 < paths.lib@.len(),
        paths.lib@[0] == own@,
{
}

proof fn lemma_bin_dirs(rocks: Seq<Result<RockDirs, String>>, style: PathStyle)
    ensures
        bin_dirs(rocks, style) == rocks.map_values(
            |rock: Result<RockDirs, String>| rock->Ok_0.bin@,
        ).filter(
            |dir: Seq<char>|
                (style is Unix ==> !dir.contains(':')) && (style is Windows ==> !dir.contains('"')),
        ).reverse(),
    decreases rocks.len(),
{
    reveal(Seq::filter);
    let dir = |rock: Result<RockDirs, String>| rock->Ok_0.bin@;
    let ok = |dir: Seq<char>|
        (style is Unix ==> !dir.contains(':')) && (style is Windows ==> !dir.contains('"'));
    let dirs = rocks.map_values(dir);
    if 0 < rocks.len() {
        lemma_bin_dirs(rocks.drop_last(), style);
        assert(rocks.drop_last().map_values(dir) == dirs.drop_last());
        let before = dirs.drop_last().filter(ok);
        let last = dirs.last();
        assert(before.push(last).reverse() == seq![last] + before.reverse());
    } else {
        assert(dirs.filter(ok).reverse() == Seq::<Seq<char>>::empty());
    }
}

/// The `bin` directory of every rock is in `PATH` unless it cannot be listed, and nothing else
/// is: those of later rocks come first.
pub proof fn bin_directories_of_later_rocks_come_first(
    rocks: Vec<Result<RockDirs, String>>,
    version: String,
    lux_lib_dir: Option<String>,
    dylib_extension: &str,
    style: PathStyle,
    paths: Paths,
)
    requires
        call_ensures(
            Paths::new,
            (rocks, version, lux_lib_dir, dylib_extension, style),
            Ok::<Paths, PathsError>(paths),
        ),
    ensures
        paths.bin@ == rocks@.map_values(|rock: Result<RockDirs, String>| rock->Ok_0.bin@).filter(
            |dir: Seq<char>|
                (style is Unix ==> !dir.contains(':')) && (style is Windows ==> !dir.contains('"')),
        ).reverse(),
{
    lemma_bin_dirs(rocks@, style);
}

/// The first rock that could not be read is the one that is reported.
pub proof fn first_unreadable_rock_is_reported(
    rocks: Vec<Result<RockDirs, String>>,
    version: String,
    lux_lib_dir: Option<String>,
    dylib_extension: &str,
    style: PathStyle,
    err: PathsError,
    i: int,
)
    requires
        call_ensures(
            Paths::new,
            (rocks, version, lux_lib_dir, dylib_extension, style),
            Err::<Paths, PathsError>(err),
        ),
        0 <= i < rocks@.len(),
        rocks@[i] is Err,
        forall|j: int| 0 <= j < i ==> #[trigger] rocks@[j] is Ok,
    ensures
        err == PathsError::Tree(rocks@[i]->Err_0),
{
}

/// The code that loads the library runs it only under the version of the paths.
pub proof fn loader_asks_for_the_version(paths: &Paths, r: String)
    requires
        call_ensures(Paths::init, (paths,), r),
    ensures
        r@ == "if _VERSION:find('"@ + paths.version@ + "') then require('lux').loader() end"@,
{
}

/// The paths hand out what they hold, and what is empty says so.
pub proof fn paths_hand_out_what_they_hold(
    paths: &Paths,
    src: &PackagePath,
    lib: &PackagePath,
    bin: &BinPath,
    no_src: bool,
    no_bin: bool,
)
    requires
        call_ensures(Paths::package_path, (paths,), src),
        call_ensures(Paths::package_cpath, (paths,), lib),
        call_ensures(Paths::path, (paths,), bin),
        call_ensures(PackagePath::is_empty, (src,), no_src),
        call_ensures(BinPath::is_empty, (bin,), no_bin),
    ensures
        src@ == paths.src@,
        lib@ == paths.lib@,
        bin@ == paths.bin@,
        no_src <==> paths.src@.len() == 0,
        no_bin <==> paths.bin@.len() == 0,
{
}

/// On Unix a joined path list is the text of its paths, each once, with semicolons between them
/// in `package.path` and with colons in `PATH`. A list without paths is an empty text.
pub proof fn unix_paths_are_joined_by_their_separators(
    path: &PackagePath,
    bin: &BinPath,
    text: String,
    bin_text: String,
    paths: Vec<String>,
    bins: Vec<String>,
    once: Vec<String>,
    bins_once: Vec<String>,
    list: &Vec<String>,
    bin_list: &Vec<String>,
    joined_texts: String,
    joined_bins: String,
)
    requires
        call_ensures(PackagePath::joined, (path, PathStyle::Unix), text),
        call_ensures(BinPath::joined, (bin, PathStyle::Unix), bin_text),
        texts(paths@) == path@,
        texts(bins@) == bin@,
        call_ensures(paths_unique, (PathStyle::Unix, paths), once),
        call_ensures(paths_unique, (PathStyle::Unix, bins), bins_once),
        *list == once,
        *bin_list == bins_once,
        call_ensures(join, (list, ";"), joined_texts),
        call_ensures(join, (bin_list, ":"), joined_bins),
    ensures
        text@ == joined_texts@,
        (forall|i: int| 0 <= i < bins_once@.len() ==> !(#[trigger] bins_once@[i])@.contains(':'))
            ==> bin_text@ == joined_bins@,
        (exists|i: int| 0 <= i < bins_once@.len() && (#[trigger] bins_once@[i])@.contains(':'))
            ==> bin_text@.len() == 0,
        path@.len() == 0 ==> text@.len() == 0,
        bin@.len() == 0 ==> bin_text@.len() == 0,
{
    let style = PathStyle::Unix;
    reveal_strlit(":");
    assert(":"@ == seq![':']);
    let unique = unique_paths(style, path@);
    let all = choose|all: Seq<Seq<char>>| #[trigger]
        are_slash_texts(style, unique, all) && text@ == join_with(all, ";"@);
    assert(all == unique) by {
        assert forall|i: int| 0 <= i < unique.len() implies all[i] == unique[i] by {
            assert(is_slash_text_in(style, unique[i], all[i]));
        }
    }
    let dirs = texts(bins_once@);
    assert(dirs == unique_paths(style, bin@));
    assert(list_items(style, dirs) == dirs) by {
        assert forall|i: int| 0 <= i < dirs.len() implies list_items(style, dirs)[i] == dirs[i] by {}
    }
    if forall|i: int| 0 <= i < bins_once@.len() ==> !(#[trigger] bins_once@[i])@.contains(':') {
        assert forall|i: int| 0 <= i < dirs.len() implies is_joinable(style, #[trigger] dirs[i]) by {
            assert(dirs[i] == bins_once@[i]@);
        }
    }
    if exists|i: int| 0 <= i < bins_once@.len() && (#[trigger] bins_once@[i])@.contains(':') {
        let i = choose|i: int|
            0 <= i < bins_once@.len() && (#[trigger] bins_once@[i])@.contains(':');
        assert(dirs[i] == bins_once@[i]@);
        assert(!is_joinable(style, dirs[i]));
        assert(!all_joinable(style, dirs));
    }
}

/// On Windows a directory with a semicolon is quoted, and any other is listed as it is. A list
/// without directories is an empty text, and so is one with a directory that holds a quote.
pub proof fn semicolons_are_quoted_on_windows(
    bin: &BinPath,
    text: String,
    dir: Seq<char>,
    bins: Vec<String>,
    once: Vec<String>,
)
    requires
        call_ensures(BinPath::joined, (bin, PathStyle::Windows), text),
        texts(bins@) == bin@,
        call_ensures(paths_unique, (PathStyle::Windows, bins), once),
        !dir.contains('"'),
    ensures
        bin@ == seq![dir] && dir.contains(';') ==> text@ == seq!['"'] + dir + seq!['"'],
        bin@ == seq![dir] && !dir.contains(';') ==> text@ == dir,
        bin@.len() == 0 ==> text@.len() == 0,
        (exists|i: int| 0 <= i < once@.len() && (#[trigger] once@[i])@.contains('"'))
            ==> text@.len() == 0,
{
    let style = PathStyle::Windows;
    if exists|i: int| 0 <= i < once@.len() && (#[trigger] once@[i])@.contains('"') {
        let i = choose|i: int| 0 <= i < once@.len() && (#[trigger] once@[i])@.contains('"');
        assert(texts(once@)[i] == once@[i]@);
        assert(!is_joinable(style, texts(once@)[i]));
        assert(!all_joinable(style, texts(once@)));
    }
    if bin@ == seq![dir] {
        distinct_paths_stay(style, bin@);
        assert(list_items(style, bin@) == seq![list_item(style, dir)]);
        assert(all_joinable(style, bin@));
    }
}

/// A path that is made without anything is empty.
pub proof fn default_paths_are_empty(path: PackagePath, bin: BinPath)
    requires
        call_ensures(<PackagePath as Default>::default, (), path),
        call_ensures(<BinPath as Default>::default, (), bin),
    ensures
        path@.len() == 0,
        bin@.len() == 0,
{
}

/// A tree that could not be read is reported as it said.
pub proof fn unreadable_tree_is_reported(err: &PathsError, r: String)
    requires
        call_ensures(PathsError::to_message, (err,), r),
    ensures
        r@ == err->Tree_0@,
{
}

proof fn lemma_quotes_are_dropped(a: Seq<char>, q: Seq<char>, b: Seq<char>)
    requires
        !a.contains('"') && !a.contains(';'),
        !q.contains('"'),
        !b.contains('"') && !b.contains(';'),
    ensures
        split_quoted(a + seq!['"'] + q + seq!['"'] + b) == seq![a + q + b],
        split_quoted(a + seq!['"'] + q) == seq![a + q],
        ends_quoted(a + seq!['"'] + q),
        !ends_quoted(a + seq!['"'] + q + seq!['"'] + b),
    decreases q.len() + b.len(),
{
    let opened = a + seq!['"'] + q;
    if q.len() == 0 {
        lemma_unquoted(a);
        assert(opened.drop_last() == a);
        assert(opened.last() == '"');
        assert(a + q == a);
    } else {
        let before = q.drop_last();
        assert(!before.contains('"')) by {
            if before.contains('"') {
                let i = choose|i: int| 0 <= i < before.len() && before[i] == '"';
                assert(q[i] == '"');
            }
        }
        assert(q.contains(q[q.len() - 1]));
        let empty = Seq::<char>::empty();
        lemma_quotes_are_dropped(a, before, empty);
        assert(opened.drop_last() == a + seq!['"'] + before);
        assert(opened.last() == q.last());
        assert((a + before).push(q.last()) == a + q);
        let pieces = seq![a + before];
        assert(q.last() != '"');
        assert(split_quoted(opened.drop_last()) == pieces);
        assert(ends_quoted(opened) == ends_quoted(opened.drop_last()));
        assert(pieces.drop_last().push(pieces.last().push(q.last())) == seq![a + q]);
    }
    let whole = opened + seq!['"'] + b;
    if b.len() == 0 {
        assert(whole.drop_last() == opened);
        assert(whole.last() == '"');
        assert(a + q + b == a + q);
        assert(split_quoted(whole) == split_quoted(opened));
        assert(ends_quoted(whole) == !ends_quoted(opened));
    } else {
        let before = b.drop_last();
        assert forall|c: char| !b.contains(c) implies !before.contains(c) by {
            if before.contains(c) {
                let i = choose|i: int| 0 <= i < before.len() && before[i] == c;
                assert(b[i] == c);
            }
        }
        assert(b.contains(b[b.len() - 1]));
        lemma_quotes_are_dropped(a, q, before);
        assert(whole.drop_last() == opened + seq!['"'] + before);
        assert(whole.last() == b.last());
        assert((a + q + before).push(b.last()) == a + q + b);
        let pieces = seq![a + q + before];
        assert(split_quoted(whole.drop_last()) == pieces);
        assert(!ends_quoted(whole.drop_last()));
        assert(b.last() != ';' && b.last() != '"');
        assert(ends_quoted(whole) == ends_quoted(whole.drop_last()));
        assert(split_quoted(whole) == pieces.drop_last().push(pieces.last().push(b.last())));
        assert(pieces.drop_last().push(pieces.last().push(b.last())) == seq![a + q + b]);
    }
}

/// On Windows a semicolon between quotes separates nothing, and the quotes are no part of the
/// directory, wherever in it they stand.
pub proof fn quoted_semicolons_separate_nothing(
    a: Seq<char>,
    q: Seq<char>,
    b: Seq<char>,
    s: &str,
    read: BinPath,
)
    requires
        !a.contains('"') && !a.contains(';'),
        !q.contains('"'),
        !b.contains('"') && !b.contains(';'),
        s@ == a + seq!['"'] + q + seq!['"'] + b,
        call_ensures(BinPath::from_str, (s, PathStyle::Windows), Ok::<BinPath, &'static str>(read)),
    ensures
        read@ == seq![a + q + b],
{
    lemma_quotes_are_dropped(a, q, b);
}

} // verus!
